//! The tools of the server, and what it says of projects and operations.
use vstd::prelude::*;

use crate::error::{Error, ErrorView};
use crate::json;
use crate::json::{Items, Json, JsonView, Members};
use crate::language;
use crate::language::Language;
use crate::locate::Probed;
use crate::operation;
use crate::operation::{
    DescriptorView, OperationDescriptor, OperationKind, OperationRegistry, TargetKind,
};
use crate::path;
use crate::path::PathBuf;
use crate::project::{Project, ProjectView};
use crate::server::error;
use crate::server::error::{into_mcp, McpError, McpErrorView};
use crate::server::ops;
use crate::server::ops::operation_tool;
use crate::text;
use crate::text::{cat2, cat3, cat4, same_text};
use crate::vcs;
use crate::vcs::{Revision, RevisionView};

verus! {

// ---------------------------------------------------------------------------
// Tools
// ---------------------------------------------------------------------------

/// The arguments of a tool.
#[derive(Debug)]
pub enum ToolInput {
    /// A directory and an optional id.
    RegisterProject,
    /// The id of a project.
    ProjectId,
    /// The id of the project to list operations for.
    ListOperations,
    /// None.
    NoParams,
    /// Those of an operation, as a JSON schema.
    Operation(Json),
}

/// A tool of the server.
#[derive(Debug)]
pub struct Tool {
    /// The name that calls use.
    pub name: String,
    /// What the tool does.
    pub description: String,
    /// The arguments.
    pub input: ToolInput,
}

/// What a [`ToolInput`] says.
pub enum ToolInputView {
    RegisterProject,
    ProjectId,
    ListOperations,
    NoParams,
    Operation(JsonView),
}

/// What a [`Tool`] says.
pub struct ToolView {
    pub name: Seq<char>,
    pub description: Seq<char>,
    pub input: ToolInputView,
}

impl View for Tool {
    type V = ToolView;

    open spec fn view(&self) -> ToolView {
        ToolView {
            name: self.name@,
            description: self.description@,
            input: match self.input {
                ToolInput::RegisterProject => ToolInputView::RegisterProject,
                ToolInput::ProjectId => ToolInputView::ProjectId,
                ToolInput::ListOperations => ToolInputView::ListOperations,
                ToolInput::NoParams => ToolInputView::NoParams,
                ToolInput::Operation(schema) => ToolInputView::Operation(schema@),
            },
        }
    }
}

/// The tools for projects, which are always there.
pub open spec fn project_tools() -> Seq<ToolView> {
    seq![
        ToolView {
            name: "register_project"@,
            description: "Register a local source tree as a project so it can be operated on. Detects the project's languages and persists the registration across restarts."@,
            input: ToolInputView::RegisterProject,
        },
        ToolView {
            name: "unregister_project"@,
            description: "Forget a registered project. Never deletes source."@,
            input: ToolInputView::ProjectId,
        },
        ToolView {
            name: "list_projects"@,
            description: "List all registered projects with their roots and detected languages."@,
            input: ToolInputView::NoParams,
        },
        ToolView {
            name: "project_status"@,
            description: "Report a registered project's root, detected languages, and the version-control state Henka reads it at (revision, branch, repo root, dirty). Use the VCS state to confirm Henka's checkout matches the working copy you are editing before trusting position-targeted coordinates."@,
            input: ToolInputView::ProjectId,
        },
        ToolView {
            name: "list_operations"@,
            description: "List the operations (refactorings, structural replace, semantic queries) available for a project, each with its kind, target, and parameters."@,
            input: ToolInputView::ListOperations,
        },
    ]
}

/// The tool of an operation.
pub open spec fn tool_of(d: DescriptorView) -> ToolView {
    ToolView {
        name: d.id,
        description: ops::tool_description(d),
        input: ToolInputView::Operation(ops::input_schema(d)),
    }
}

/// The tools of the server with a catalog of operations.
pub open spec fn all_tools(catalog: Seq<DescriptorView>) -> Seq<ToolView> {
    project_tools() + catalog.map_values(|d: DescriptorView| tool_of(d))
}

/// What a list of tools says.
pub open spec fn tool_views(tools: Seq<Tool>) -> Seq<ToolView> {
    tools.map_values(|t: Tool| t@)
}

/// A tool for projects.
fn project_tool(name: &str, description: &str, input: ToolInput) -> (r: Tool)
    ensures
        r.name@ == name@,
        r.description@ == description@,
        r.input == input,
{
    Tool { name: name.to_owned(), description: description.to_owned(), input }
}

/// The tools of the server: those for projects, and one for each operation of the
/// catalog.
pub fn tools<H>(operations: &OperationRegistry<H>) -> (r: Vec<Tool>)
    ensures
        exists|catalog: Seq<DescriptorView>| #[trigger]
            operation::is_catalog(operations@, catalog) && tool_views(r@) == all_tools(catalog),
{
    let mut out: Vec<Tool> = Vec::new();
    out.push(
        project_tool(
            "register_project",
            "Register a local source tree as a project so it can be operated on. Detects the project's languages and persists the registration across restarts.",
            ToolInput::RegisterProject,
        ),
    );
    out.push(
        project_tool(
            "unregister_project",
            "Forget a registered project. Never deletes source.",
            ToolInput::ProjectId,
        ),
    );
    out.push(
        project_tool(
            "list_projects",
            "List all registered projects with their roots and detected languages.",
            ToolInput::NoParams,
        ),
    );
    out.push(
        project_tool(
            "project_status",
            "Report a registered project's root, detected languages, and the version-control state Henka reads it at (revision, branch, repo root, dirty). Use the VCS state to confirm Henka's checkout matches the working copy you are editing before trusting position-targeted coordinates.",
            ToolInput::ProjectId,
        ),
    );
    out.push(
        project_tool(
            "list_operations",
            "List the operations (refactorings, structural replace, semantic queries) available for a project, each with its kind, target, and parameters.",
            ToolInput::ListOperations,
        ),
    );
    assert(tool_views(out@) =~= project_tools());
    let descriptors = operations.descriptors();
    let ghost catalog = operation::descriptor_views(descriptors@);
    let ghost more = catalog.map_values(|d: DescriptorView| tool_of(d));
    let mut i: usize = 0;
    assert(project_tools() + more.take(0) =~= project_tools());
    while i < descriptors.len()
        invariant
            i <= descriptors@.len(),
            catalog == operation::descriptor_views(descriptors@),
            more == catalog.map_values(|d: DescriptorView| tool_of(d)),
            tool_views(out@) == project_tools() + more.take(i as int),
        decreases descriptors@.len() - i,
    {
        let tool = operation_tool(&descriptors[i]);
        let ghost before = tool_views(out@);
        out.push(
            Tool {
                name: tool.name,
                description: tool.description,
                input: ToolInput::Operation(tool.input_schema),
            },
        );
        proof {
            assert(more[i as int] == tool_of(descriptors@[i as int]@));
            assert(tool_views(out@) =~= before.push(more[i as int]));
            assert(project_tools() + more.take(i + 1) =~= (project_tools() + more.take(
                i as int,
            )).push(more[i as int]));
        }
        i += 1;
    }
    assert(more.take(i as int) =~= more);
    assert(operation::is_catalog(operations@, catalog));
    out
}

/// What a call is for, by the name of its tool.
#[derive(Debug, Clone, Copy, PartialEq, Eq, Structural)]
pub enum Route {
    /// To register a project.
    RegisterProject,
    /// To forget a project.
    UnregisterProject,
    /// To list the projects.
    ListProjects,
    /// To report on a project.
    ProjectStatus,
    /// To list the operations of a project.
    ListOperations,
    /// To run an operation.
    Operation,
}

/// What a call is for, by the name of its tool.
pub open spec fn route_of(name: Seq<char>) -> Route {
    if name == "register_project"@ {
        Route::RegisterProject
    } else if name == "unregister_project"@ {
        Route::UnregisterProject
    } else if name == "list_projects"@ {
        Route::ListProjects
    } else if name == "project_status"@ {
        Route::ProjectStatus
    } else if name == "list_operations"@ {
        Route::ListOperations
    } else {
        Route::Operation
    }
}

/// What a call is for, by the name of its tool.
pub fn route(name: &str) -> (r: Route)
    ensures
        r == route_of(name@),
{
    if same_text(name, "register_project") {
        Route::RegisterProject
    } else if same_text(name, "unregister_project") {
        Route::UnregisterProject
    } else if same_text(name, "list_projects") {
        Route::ListProjects
    } else if same_text(name, "project_status") {
        Route::ProjectStatus
    } else if same_text(name, "list_operations") {
        Route::ListOperations
    } else {
        Route::Operation
    }
}

// ---------------------------------------------------------------------------
// Reports
// ---------------------------------------------------------------------------

/// A list of languages.
pub open spec fn languages_json(languages: Seq<Language>) -> JsonView {
    JsonView::Array(
        languages.map_values(|l: Language| JsonView::Text(language::language_name(l))),
    )
}

/// What a call is told of a project.
pub open spec fn project_json(p: ProjectView) -> Seq<(Seq<char>, JsonView)> {
    json::no_members().push(("id"@, JsonView::Text(p.id))).push(
        ("root"@, JsonView::Text(p.root)),
    ).push(("languages"@, languages_json(p.languages)))
}

/// A text, or null.
pub open spec fn text_or_null(s: Option<Seq<char>>) -> JsonView {
    match s {
        Some(s) => JsonView::Text(s),
        None => JsonView::Null,
    }
}

/// What a call is told of the revision of a project.
pub open spec fn revision_json(
    revision: Option<RevisionView>,
    repo_root: Option<Seq<char>>,
    dirty: bool,
) -> JsonView {
    match revision {
        Some(rev) => JsonView::Object(
            json::no_members().push(("vcs"@, JsonView::Text(vcs::vcs_name(rev.vcs)))).push(
                ("revision"@, JsonView::Text(rev.id)),
            ).push(("branch"@, text_or_null(rev.branch))).push(
                ("repo_root"@, text_or_null(repo_root)),
            ).push(("dirty"@, JsonView::Bool(dirty))),
        ),
        None => JsonView::Null,
    }
}

/// How far the backend of a language has come for a project.
#[derive(Debug, Clone, Copy, PartialEq, Eq, Structural)]
pub enum Readiness {
    /// A session serves the project.
    Ready,
    /// There is a backend, but no session yet.
    Warming,
    /// There is no backend.
    Unavailable,
}

/// A language of a project, and how far its backend has come.
#[derive(Debug, Clone, Copy, PartialEq, Eq, Structural)]
pub struct Backend {
    /// The language.
    pub language: Language,
    /// How far its backend has come.
    pub readiness: Readiness,
}

/// What a call is told of a backend.
pub open spec fn backend_json(b: Backend) -> JsonView {
    JsonView::Object(
        json::no_members().push(
            (
                "state"@,
                JsonView::Text(
                    match b.readiness {
                        Readiness::Ready => "ready"@,
                        Readiness::Warming => "warming"@,
                        Readiness::Unavailable => "unavailable"@,
                    },
                ),
            ),
        ).push(
            (
                "message"@,
                match b.readiness {
                    Readiness::Unavailable => JsonView::Text(
                        "no provider registered for `"@ + language::language_name(b.language)
                            + "`"@,
                    ),
                    _ => JsonView::Null,
                },
            ),
        ),
    )
}

/// What a call is told of the backends of a project: under the name of each
/// language.
pub open spec fn backends_json(backends: Seq<Backend>) -> JsonView {
    JsonView::Object(
        backends.map_values(|b: Backend| (language::language_name(b.language), backend_json(b))),
    )
}

/// What a call is told of a project, of the revision that it is read at, and of its
/// backends.
pub open spec fn status_json(
    project: ProjectView,
    revision: Option<RevisionView>,
    repo_root: Option<Seq<char>>,
    dirty: bool,
    backends: Seq<Backend>,
) -> JsonView {
    JsonView::Object(
        project_json(project).push(("vcs"@, revision_json(revision, repo_root, dirty))).push(
            ("backends"@, backends_json(backends)),
        ),
    )
}

/// What a call is told of an operation.
pub open spec fn descriptor_json(d: DescriptorView) -> JsonView {
    JsonView::Object(
        json::no_members().push(("id"@, JsonView::Text(d.id))).push(
            ("title"@, JsonView::Text(d.title)),
        ).push(("description"@, JsonView::Text(d.description))).push(
            (
                "kind"@,
                JsonView::Text(
                    match d.kind {
                        OperationKind::Edit => "edit"@,
                        OperationKind::Query => "query"@,
                    },
                ),
            ),
        ).push(("languages"@, languages_json(d.languages))).push(
            (
                "target"@,
                JsonView::Text(
                    match d.target {
                        TargetKind::Position => "position"@,
                        TargetKind::Selection => "selection"@,
                        TargetKind::File => "file"@,
                        TargetKind::Project => "project"@,
                    },
                ),
            ),
        ).push(("params_schema"@, d.params_schema)),
    )
}

/// A list of languages.
fn languages_value(languages: &Vec<Language>) -> (r: Json)
    ensures
        r@ == languages_json(languages@),
{
    let ghost want = languages@.map_values(
        |l: Language| JsonView::Text(language::language_name(l)),
    );
    let mut out = Items::new();
    let mut i: usize = 0;
    assert(want.take(0) =~= json::no_items());
    while i < languages.len()
        invariant
            i <= languages@.len(),
            want == languages@.map_values(
                |l: Language| JsonView::Text(language::language_name(l)),
            ),
            out@ == want.take(i as int),
        decreases languages@.len() - i,
    {
        out = out.with(Json::text(languages[i].as_str()));
        assert(want.take(i + 1) =~= want.take(i as int).push(want[i as int]));
        i += 1;
    }
    assert(want.take(i as int) =~= want);
    out.done()
}

/// What a call is told of a project.
fn project_members(p: &Project) -> (r: Members)
    ensures
        r@ == project_json(p@),
{
    Members::new().with("id", Json::text(p.id.as_str())).with(
        "root",
        Json::text(p.root.as_str()),
    ).with("languages", languages_value(&p.languages))
}

/// What a call is told of a project.
pub fn project_value(p: &Project) -> (r: Json)
    ensures
        r@ == JsonView::Object(project_json(p@)),
{
    project_members(p).done()
}

/// What a call is told of a list of projects.
pub fn projects_value(projects: &Vec<Project>) -> (r: Json)
    ensures
        r@ == JsonView::Array(projects@.map_values(|p: Project| JsonView::Object(project_json(p@)))),
{
    let ghost want = projects@.map_values(|p: Project| JsonView::Object(project_json(p@)));
    let mut out = Items::new();
    let mut i: usize = 0;
    assert(want.take(0) =~= json::no_items());
    while i < projects.len()
        invariant
            i <= projects@.len(),
            want == projects@.map_values(|p: Project| JsonView::Object(project_json(p@))),
            out@ == want.take(i as int),
        decreases projects@.len() - i,
    {
        out = out.with(project_value(&projects[i]));
        assert(want.take(i + 1) =~= want.take(i as int).push(want[i as int]));
        i += 1;
    }
    assert(want.take(i as int) =~= want);
    out.done()
}

/// A text, or null.
fn text_or_null_value(s: Option<&str>) -> (r: Json)
    ensures
        r@ == match s {
            Some(s) => JsonView::Text(s@),
            None => JsonView::Null,
        },
{
    match s {
        Some(s) => Json::text(s),
        None => Json::Null,
    }
}

/// What a call is told of a backend.
fn backend_value(b: Backend) -> (r: Json)
    ensures
        r@ == backend_json(b),
{
    let state = match b.readiness {
        Readiness::Ready => "ready",
        Readiness::Warming => "warming",
        Readiness::Unavailable => "unavailable",
    };
    let message = match b.readiness {
        Readiness::Unavailable => Json::text(
            cat3("no provider registered for `", b.language.as_str(), "`").as_str(),
        ),
        _ => Json::Null,
    };
    Members::new().with("state", Json::text(state)).with("message", message).done()
}

/// What a call is told of the backends of a project.
fn backends_value(backends: &Vec<Backend>) -> (r: Json)
    ensures
        r@ == backends_json(backends@),
{
    let ghost want = backends@.map_values(
        |b: Backend| (language::language_name(b.language), backend_json(b)),
    );
    let mut out = Members::new();
    let mut i: usize = 0;
    assert(want.take(0) =~= json::no_members());
    while i < backends.len()
        invariant
            i <= backends@.len(),
            want == backends@.map_values(
                |b: Backend| (language::language_name(b.language), backend_json(b)),
            ),
            out@ == want.take(i as int),
        decreases backends@.len() - i,
    {
        out = out.with(backends[i].language.as_str(), backend_value(backends[i]));
        assert(want.take(i + 1) =~= want.take(i as int).push(want[i as int]));
        i += 1;
    }
    assert(want.take(i as int) =~= want);
    out.done()
}

/// What a call is told of a project, of the revision that it is read at, and of its
/// backends. `repo_root` is the shared root of its repository, and `dirty` says
/// whether its working copy has changes.
pub fn project_status(
    project: &Project,
    revision: &Option<Revision>,
    repo_root: &Option<PathBuf>,
    dirty: bool,
    backends: &Vec<Backend>,
) -> (r: Json)
    ensures
        r@ == JsonView::Object(
            project_json(project@).push(
                (
                    "vcs"@,
                    revision_json(vcs::optional(*revision), path::optional(*repo_root), dirty),
                ),
            ).push(("backends"@, backends_json(backends@))),
        ),
        r@ == status_json(
            project@,
            vcs::optional(*revision),
            path::optional(*repo_root),
            dirty,
            backends@,
        ),
{
    let vcs = match revision {
        Some(rev) => {
            let branch = match &rev.branch {
                Some(b) => text_or_null_value(Some(b.as_str())),
                None => Json::Null,
            };
            let root = match repo_root {
                Some(p) => text_or_null_value(Some(p.as_str())),
                None => Json::Null,
            };
            Members::new().with("vcs", Json::text(rev.vcs.as_str())).with(
                "revision",
                Json::text(rev.id.as_str()),
            ).with("branch", branch).with("repo_root", root).with("dirty", Json::Bool(dirty)).done()
        },
        None => Json::Null,
    };
    project_members(project).with("vcs", vcs).with("backends", backends_value(backends)).done()
}

/// What a call is told of an operation.
pub fn descriptor_value(d: &OperationDescriptor) -> (r: Json)
    ensures
        r@ == descriptor_json(d@),
{
    let kind = match d.kind {
        OperationKind::Edit => "edit",
        OperationKind::Query => "query",
    };
    let target = match d.target {
        TargetKind::Position => "position",
        TargetKind::Selection => "selection",
        TargetKind::File => "file",
        TargetKind::Project => "project",
    };
    Members::new().with("id", Json::text(d.id.as_str())).with(
        "title",
        Json::text(d.title.as_str()),
    ).with("description", Json::text(d.description.as_str())).with("kind", Json::text(kind)).with(
        "languages",
        languages_value(&d.languages),
    ).with("target", Json::text(target)).with("params_schema", d.params_schema.copy()).done()
}

/// What a call is told of a list of operations.
pub fn descriptors_value(descriptors: &Vec<OperationDescriptor>) -> (r: Json)
    ensures
        r@ == JsonView::Array(
            operation::descriptor_views(descriptors@).map_values(
                |d: DescriptorView| descriptor_json(d),
            ),
        ),
{
    let ghost want = operation::descriptor_views(descriptors@).map_values(
        |d: DescriptorView| descriptor_json(d),
    );
    let mut out = Items::new();
    let mut i: usize = 0;
    assert(want.take(0) =~= json::no_items());
    while i < descriptors.len()
        invariant
            i <= descriptors@.len(),
            want == operation::descriptor_views(descriptors@).map_values(
                |d: DescriptorView| descriptor_json(d),
            ),
            out@ == want.take(i as int),
        decreases descriptors@.len() - i,
    {
        out = out.with(descriptor_value(&descriptors[i]));
        assert(want[i as int] == descriptor_json(descriptors@[i as int]@));
        assert(want.take(i + 1) =~= want.take(i as int).push(want[i as int]));
        i += 1;
    }
    assert(want.take(i as int) =~= want);
    out.done()
}

// ---------------------------------------------------------------------------
// Roots that are not there
// ---------------------------------------------------------------------------

/// A list of distinct paths, in order, with one more. A path that is there
/// already is not added.
pub open spec fn path_added(ordered: Seq<Seq<char>>, p: Seq<char>) -> Seq<Seq<char>>
    decreases ordered.len(),
{
    if ordered.len() == 0 {
        seq![p]
    } else if path::components(p) == path::components(ordered[0]) {
        ordered
    } else if path::path_before(p, ordered[0]) {
        seq![p] + ordered
    } else {
        seq![ordered[0]] + path_added(ordered.skip(1), p)
    }
}

/// The distinct paths of a list, in order.
pub open spec fn in_order(paths: Seq<Seq<char>>) -> Seq<Seq<char>>
    decreases paths.len(),
{
    if paths.len() == 0 {
        seq![]
    } else {
        path_added(in_order(paths.drop_last()), paths.last())
    }
}

/// Adds a path to a list of distinct paths, in order.
fn add_path(ordered: &mut Vec<PathBuf>, p: PathBuf)
    ensures
        path::texts(final(ordered)@) == path_added(path::texts(old(ordered)@), p@),
{
    let ghost all = path::texts(ordered@);
    let mut i: usize = 0;
    assert(all.skip(0) =~= all);
    assert(all.take(0) + path_added(all, p@) =~= path_added(all, p@));
    while i < ordered.len()
        invariant
            i <= ordered@.len(),
            ordered@ == old(ordered)@,
            all == path::texts(old(ordered)@),
            path_added(all, p@) == all.take(i as int) + path_added(all.skip(i as int), p@),
        decreases ordered@.len() - i,
    {
        let ghost rest = all.skip(i as int);
        assert(rest[0] == ordered@[i as int]@);
        if p == ordered[i] {
            assert(all.take(i as int) + rest =~= all);
            return;
        }
        if p.comes_before(&ordered[i]) {
            ordered.insert(i, p);
            assert(path::texts(ordered@) =~= all.take(i as int) + (seq![p@] + rest));
            return;
        }
        proof {
            assert(rest.skip(1) =~= all.skip(i + 1));
            assert(all.take(i as int) + (seq![rest[0]] + path_added(all.skip(i + 1), p@))
                =~= all.take(i + 1) + path_added(all.skip(i + 1), p@));
        }
        i += 1;
    }
    ordered.push(p);
    assert(all.skip(i as int) =~= seq![]);
    assert(path::texts(ordered@) =~= all.take(i as int) + seq![p@]);
}

/// The directories that the roots of projects lie in.
pub open spec fn parents(projects: Seq<ProjectView>) -> Seq<Seq<char>>
    decreases projects.len(),
{
    if projects.len() == 0 {
        seq![]
    } else {
        match path::parent_of(projects.last().root) {
            Some(dir) => parents(projects.drop_last()).push(dir),
            None => parents(projects.drop_last()),
        }
    }
}

/// Where working copies may be: under the usual mount, if that is a directory, and
/// beside the registered projects.
pub open spec fn mount_roots(projects: Seq<ProjectView>, mounted: bool) -> Seq<Seq<char>> {
    if mounted {
        seq!["/workspaces"@] + parents(projects)
    } else {
        parents(projects)
    }
}

/// The paths with the name of a missing one, in the places where working copies may
/// be.
pub open spec fn mount_paths(
    missing: Seq<char>,
    projects: Seq<ProjectView>,
    mounted: bool,
) -> Seq<Seq<char>> {
    match path::file_name_of(missing) {
        Some(name) => in_order(mount_roots(projects, mounted)).map_values(
            |root: Seq<char>| path::joined(root, name),
        ),
        None => seq![],
    }
}

/// The paths with the name of a missing one, in the places where working copies may
/// be. `mounted` says whether `/workspaces` is a directory.
pub fn mount_candidates(missing: &PathBuf, projects: &Vec<Project>, mounted: bool) -> (r: Vec<
    PathBuf,
>)
    ensures
        path::texts(r@) == mount_paths(
            missing@,
            projects@.map_values(|p: Project| p@),
            mounted,
        ),
{
    let name = match missing.file_name() {
        Some(name) => PathBuf::new(name.as_str()),
        None => {
            let none: Vec<PathBuf> = Vec::new();
            assert(path::texts(none@) =~= seq![]);
            return none;
        },
    };
    let ghost listed = projects@.map_values(|p: Project| p@);
    let ghost first = if mounted {
        seq!["/workspaces"@]
    } else {
        seq![]
    };
    let mut roots: Vec<PathBuf> = Vec::new();
    assert(path::texts(roots@) =~= seq![]);
    if mounted {
        add_path(&mut roots, PathBuf::new("/workspaces"));
        assert(seq!["/workspaces"@].drop_last() =~= seq![]);
        assert(in_order(seq!["/workspaces"@]) == path_added(seq![], "/workspaces"@)) by {
            reveal_with_fuel(in_order, 2);
        }
    }
    let mut i: usize = 0;
    assert(listed.take(0) =~= seq![]);
    assert(first + parents(listed.take(0)) =~= first);
    while i < projects.len()
        invariant
            i <= projects@.len(),
            listed == projects@.map_values(|p: Project| p@),
            path::texts(roots@) == in_order(first + parents(listed.take(i as int))),
        decreases projects@.len() - i,
    {
        let ghost now = listed.take(i + 1);
        assert(now.drop_last() =~= listed.take(i as int));
        assert(now.last() == projects@[i as int]@);
        if let Some(dir) = projects[i].root.parent() {
            proof {
                let some = first + parents(listed.take(i as int));
                let more = first + parents(now);
                assert(more =~= some.push(dir@));
                assert(more.drop_last() =~= some);
            }
            add_path(&mut roots, dir);
        }
        i += 1;
    }
    assert(listed.take(i as int) =~= listed);
    assert(first + parents(listed) =~= mount_roots(listed, mounted));
    let ghost places = path::texts(roots@);
    let mut out: Vec<PathBuf> = Vec::new();
    let mut k: usize = 0;
    while k < roots.len()
        invariant
            k <= roots@.len(),
            places == path::texts(roots@),
            out@.len() == k,
            forall|j: int| 0 <= j < k ==> out@[j]@ == path::joined(places[j], name@),
        decreases roots@.len() - k,
    {
        assert(places[k as int] == roots@[k as int]@);
        out.push(roots[k].join(&name));
        k += 1;
    }
    assert(path::texts(out@) =~= places.map_values(|root: Seq<char>| path::joined(root, name@)));
    out
}

/// The paths that are directories, but for one.
pub open spec fn other_dirs(places: Seq<Probed>, missing: Seq<char>) -> Seq<Seq<char>>
    decreases places.len(),
{
    if places.len() == 0 {
        seq![]
    } else {
        let last = places.last();
        let before = other_dirs(places.drop_last(), missing);
        if last.present && path::components(last.path@) != path::components(missing) {
            before.push(last.path@)
        } else {
            before
        }
    }
}

/// The directories that may be meant by a path that is missing, in order. `places`
/// says which of the candidates are directories.
pub fn suggest_mounts(missing: &PathBuf, places: &Vec<Probed>) -> (r: Vec<PathBuf>)
    ensures
        path::texts(r@) == in_order(other_dirs(places@, missing@)),
{
    let mut out: Vec<PathBuf> = Vec::new();
    let mut i: usize = 0;
    assert(places@.take(0) =~= seq![]);
    assert(path::texts(out@) =~= seq![]);
    while i < places.len()
        invariant
            i <= places@.len(),
            path::texts(out@) == in_order(other_dirs(places@.take(i as int), missing@)),
        decreases places@.len() - i,
    {
        let ghost now = places@.take(i + 1);
        assert(now.drop_last() =~= places@.take(i as int));
        assert(now.last() == places@[i as int]);
        if places[i].present && !(places[i].path == *missing) {
            proof {
                let before = other_dirs(places@.take(i as int), missing@);
                assert(before.push(places@[i as int].path@).drop_last() =~= before);
            }
            add_path(&mut out, places[i].path.clone());
        }
        i += 1;
    }
    assert(places@.take(i as int) =~= places@);
    out
}

/// Paths in backquotes, parted by commas.
pub open spec fn quoted(paths: Seq<Seq<char>>) -> Seq<char>
    decreases paths.len(),
{
    if paths.len() == 0 {
        ""@
    } else if paths.len() == 1 {
        "`"@ + paths[0] + "`"@
    } else {
        quoted(paths.drop_last()) + ", "@ + ("`"@ + paths.last() + "`"@)
    }
}

/// What the registration of a path that is not there is answered.
pub open spec fn missing_root(missing: Seq<char>, suggestions: Seq<Seq<char>>) -> McpErrorView {
    let first = "path does not exist inside Henka: `"@ + missing
        + "`. Henka resolves paths on its own filesystem, not the caller's — when it runs in a container, host paths must be mounted (by convention under /workspaces) and registered by their in-container path."@;
    let second = if suggestions.len() > 0 {
        first + " A mounted working copy of the same name exists at: "@ + quoted(suggestions) + "."@
    } else {
        first
    };
    McpErrorView::InvalidParams(
        second
            + " To keep registering by caller-side paths, set HENKA_PATH_MAP=<host-prefix>=<container-prefix>."@,
    )
}

/// Paths in backquotes, parted by commas.
fn quote(paths: &Vec<PathBuf>) -> (r: String)
    ensures
        r@ == quoted(path::texts(paths@)),
{
    if paths.len() == 0 {
        return "".to_owned();
    }
    let ghost all = path::texts(paths@);
    let mut out = cat3("`", paths[0].as_str(), "`");
    let mut i: usize = 1;
    assert(all.take(1)[0] == all[0]);
    while i < paths.len()
        invariant
            1 <= i <= paths@.len(),
            all == path::texts(paths@),
            out@ == quoted(all.take(i as int)),
        decreases paths@.len() - i,
    {
        assert(all.take(i + 1).drop_last() =~= all.take(i as int));
        let one = cat3("`", paths[i].as_str(), "`");
        out = cat3(out.as_str(), ", ", one.as_str());
        i += 1;
    }
    assert(all.take(i as int) =~= all);
    out
}

/// What the registration of a path that is not there is answered: that paths are
/// those of the server, and which directories may be meant.
pub fn path_not_found_error(missing: &PathBuf, suggestions: &Vec<PathBuf>) -> (r: McpError)
    ensures
        r@ == missing_root(missing@, path::texts(suggestions@)),
{
    let first = cat3(
        "path does not exist inside Henka: `",
        missing.as_str(),
        "`. Henka resolves paths on its own filesystem, not the caller's — when it runs in a container, host paths must be mounted (by convention under /workspaces) and registered by their in-container path.",
    );
    let second = if suggestions.len() > 0 {
        cat4(
            first.as_str(),
            " A mounted working copy of the same name exists at: ",
            quote(suggestions).as_str(),
            ".",
        )
    } else {
        first
    };
    McpError::InvalidParams(
        cat2(
            second.as_str(),
            " To keep registering by caller-side paths, set HENKA_PATH_MAP=<host-prefix>=<container-prefix>.",
        ),
    )
}

/// What a registration that failed is answered.
pub open spec fn registration_failed(
    e: ErrorView,
    suggestions: Seq<Seq<char>>,
) -> McpErrorView {
    match e {
        ErrorView::PathNotFound(missing) => missing_root(missing, suggestions),
        _ => error::answer_to(e),
    }
}

/// What a registration that failed is answered. `suggestions` are the directories
/// that may be meant by a path that is missing.
pub fn refuse_registration(e: &Error, suggestions: &Vec<PathBuf>) -> (r: McpError)
    ensures
        r@ == registration_failed(e@, path::texts(suggestions@)),
{
    match e {
        Error::PathNotFound(missing) => path_not_found_error(missing, suggestions),
        _ => into_mcp(e),
    }
}

// ---------------------------------------------------------------------------
// Laws
// ---------------------------------------------------------------------------

/// Whether a list of values is the list of the names of languages.
pub open spec fn names_languages(v: Option<JsonView>, languages: Seq<Language>) -> bool {
    v matches Some(JsonView::Array(names)) && names.len() == languages.len() && forall|i: int|
        0 <= i < names.len() ==> #[trigger] names[i] == JsonView::Text(
            language::language_name(languages[i]),
        )
}

/// A call is told of a project what the project is.
pub proof fn projects_are_told_as_they_are(p: ProjectView)
    ensures
        JsonView::Object(project_json(p)).get_text("id"@) == Some(p.id),
        JsonView::Object(project_json(p)).get_text("root"@) == Some(p.root),
        names_languages(JsonView::Object(project_json(p)).get("languages"@), p.languages),
{
    broadcast use json::lemma_lookup_of_pushed;

    reveal_strlit("id");
    reveal_strlit("root");
    reveal_strlit("languages");
    reveal_strlit("vcs");
    reveal_strlit("backends");
    assert("id"@.len() == 2);
    assert("root"@.len() == 4);
    assert("languages"@.len() == 9);
    assert("vcs"@.len() == 3);
    assert("backends"@.len() == 8);
}

/// A status says of a project what a listing says of it, and of its revision its
/// system, its id, its branch, its repository and its changes. Without a revision it
/// says that there is none.
pub proof fn status_says_the_revision(
    p: ProjectView,
    rev: RevisionView,
    repo_root: Option<Seq<char>>,
    dirty: bool,
    backends: Seq<Backend>,
)
    ensures
        ({
            let told = status_json(p, Some(rev), repo_root, dirty, backends);
            let at = told.get("vcs"@);
            &&& told.get_text("id"@) == Some(p.id)
            &&& told.get_text("root"@) == Some(p.root)
            &&& names_languages(told.get("languages"@), p.languages)
            &&& json::inner(at, "vcs"@) == Some(JsonView::Text(vcs::vcs_name(rev.vcs)))
            &&& json::inner(at, "revision"@) == Some(JsonView::Text(rev.id))
            &&& json::inner(at, "branch"@) == Some(
                match rev.branch {
                    Some(b) => JsonView::Text(b),
                    None => JsonView::Null,
                },
            )
            &&& json::inner(at, "repo_root"@) == Some(
                match repo_root {
                    Some(r) => JsonView::Text(r),
                    None => JsonView::Null,
                },
            )
            &&& json::inner(at, "dirty"@) == Some(JsonView::Bool(dirty))
        }),
        status_json(p, None, repo_root, dirty, backends).get("vcs"@) == Some(JsonView::Null),
{
    broadcast use json::lemma_lookup_of_pushed;

    reveal_strlit("id");
    reveal_strlit("root");
    reveal_strlit("languages");
    reveal_strlit("vcs");
    reveal_strlit("backends");
    assert("id"@.len() == 2);
    assert("root"@.len() == 4);
    assert("languages"@.len() == 9);
    assert("vcs"@.len() == 3);
    assert("backends"@.len() == 8);
    reveal_strlit("vcs");
    reveal_strlit("revision");
    reveal_strlit("branch");
    reveal_strlit("repo_root");
    reveal_strlit("dirty");
    assert("vcs"@.len() == 3);
    assert("revision"@.len() == 8);
    assert("branch"@.len() == 6);
    assert("repo_root"@.len() == 9);
    assert("dirty"@.len() == 5);
}

/// Whether every backend is of a language of its own.
pub open spec fn one_for_each(backends: Seq<Backend>) -> bool {
    forall|i: int, j: int|
        0 <= i < j < backends.len() ==> (#[trigger] backends[i]).language != (
        #[trigger] backends[j]).language
}

/// A status says of each backend, under the name of its language, how far it has
/// come. It says why a backend is not available, naming the language, and has nothing
/// more to say of any other.
pub proof fn status_says_how_far_backends_are(
    p: ProjectView,
    revision: Option<RevisionView>,
    repo_root: Option<Seq<char>>,
    dirty: bool,
    backends: Seq<Backend>,
    i: int,
)
    requires
        one_for_each(backends),
        0 <= i < backends.len(),
    ensures
        ({
            let told = status_json(p, revision, repo_root, dirty, backends);
            let b = backends[i];
            let of_it = json::inner(told.get("backends"@), language::language_name(b.language));
            &&& json::inner(of_it, "state"@) == Some(JsonView::Text("ready"@)) <==> b.readiness
                == Readiness::Ready
            &&& json::inner(of_it, "state"@) == Some(JsonView::Text("warming"@)) <==> b.readiness
                == Readiness::Warming
            &&& json::inner(of_it, "state"@) == Some(JsonView::Text("unavailable"@))
                <==> b.readiness == Readiness::Unavailable
            &&& json::inner(of_it, "message"@) is Some
            &&& json::inner(of_it, "message"@) == Some(JsonView::Null) <==> b.readiness
                != Readiness::Unavailable
            &&& json::inner(of_it, "message"@) matches Some(JsonView::Text(why))
                ==> text::contains_text(why, language::language_name(b.language))
        }),
{
    broadcast use json::lemma_lookup_of_pushed;

    reveal_strlit("id");
    reveal_strlit("root");
    reveal_strlit("languages");
    reveal_strlit("vcs");
    reveal_strlit("backends");
    assert("id"@.len() == 2);
    assert("root"@.len() == 4);
    assert("languages"@.len() == 9);
    assert("vcs"@.len() == 3);
    assert("backends"@.len() == 8);
    reveal_strlit("state");
    reveal_strlit("message");
    reveal_strlit("ready");
    reveal_strlit("warming");
    reveal_strlit("unavailable");
    assert("state"@.len() == 5);
    assert("message"@.len() == 7);
    assert("ready"@.len() == 5);
    assert("warming"@.len() == 7);
    assert("unavailable"@.len() == 11);
    assert("state"@[0] != "ready"@[0]);
    assert("message"@[0] != "warming"@[0]);
    let b = backends[i];
    lemma_backend_found(backends, i);
    text::lemma_stands_between(
        "no provider registered for `"@,
        language::language_name(b.language),
        "`"@,
    );
}

/// A backend is found under the name of its language.
proof fn lemma_backend_found(backends: Seq<Backend>, i: int)
    requires
        one_for_each(backends),
        0 <= i < backends.len(),
    ensures
        backends_json(backends).get(language::language_name(backends[i].language)) == Some(
            backend_json(backends[i]),
        ),
    decreases backends.len(),
{
    let all = backends.map_values(
        |b: Backend| (language::language_name(b.language), backend_json(b)),
    );
    let rest = backends.skip(1);
    assert(all[0] == (language::language_name(backends[0].language), backend_json(backends[0])));
    assert(all.skip(1) =~= rest.map_values(
        |b: Backend| (language::language_name(b.language), backend_json(b)),
    ));
    if i > 0 {
        assert(backends[0].language != backends[i].language);
        language::names_tell_languages_apart(backends[0].language, backends[i].language);
        assert forall|j: int, k: int| 0 <= j < k < rest.len() implies (#[trigger] rest[j]).language
            != (#[trigger] rest[k]).language by {
            assert(rest[j] == backends[j + 1] && rest[k] == backends[k + 1]);
        }
        assert(rest[i - 1] == backends[i]);
        lemma_backend_found(rest, i - 1);
    }
}

/// A call is told of an operation what the operation says of itself.
pub proof fn operations_are_told_as_they_are(d: DescriptorView)
    ensures
        descriptor_json(d).get_text("id"@) == Some(d.id),
        descriptor_json(d).get_text("title"@) == Some(d.title),
        descriptor_json(d).get_text("description"@) == Some(d.description),
        descriptor_json(d).get_text("kind"@) == Some("edit"@) <==> d.kind == OperationKind::Edit,
        descriptor_json(d).get_text("kind"@) == Some("query"@) <==> d.kind == OperationKind::Query,
        names_languages(descriptor_json(d).get("languages"@), d.languages),
        descriptor_json(d).get_text("target"@) == Some("position"@) <==> d.target
            == TargetKind::Position,
        descriptor_json(d).get_text("target"@) == Some("selection"@) <==> d.target
            == TargetKind::Selection,
        descriptor_json(d).get_text("target"@) == Some("file"@) <==> d.target == TargetKind::File,
        descriptor_json(d).get_text("target"@) == Some("project"@) <==> d.target
            == TargetKind::Project,
        descriptor_json(d).get("params_schema"@) == Some(d.params_schema),
{
    broadcast use json::lemma_lookup_of_pushed;

    reveal_strlit("id");
    reveal_strlit("title");
    reveal_strlit("description");
    reveal_strlit("kind");
    reveal_strlit("languages");
    reveal_strlit("target");
    reveal_strlit("params_schema");
    assert("id"@.len() == 2);
    assert("title"@.len() == 5);
    assert("description"@.len() == 11);
    assert("kind"@.len() == 4);
    assert("languages"@.len() == 9);
    assert("target"@.len() == 6);
    assert("params_schema"@.len() == 13);
    reveal_strlit("edit");
    reveal_strlit("query");
    reveal_strlit("position");
    reveal_strlit("selection");
    reveal_strlit("file");
    reveal_strlit("project");
    assert("edit"@.len() == 4);
    assert("query"@.len() == 5);
    assert("position"@.len() == 8);
    assert("selection"@.len() == 9);
    assert("file"@.len() == 4);
    assert("project"@.len() == 7);
    assert("edit"@[0] != "file"@[0]);
}

/// The tools for projects have routes of their own, and every other name is that of
/// an operation. What a tool takes is what its route needs: a directory to register,
/// the id of a project, or nothing. There is a tool for each operation of the
/// catalog, under its id, with its schema.
pub proof fn every_tool_has_its_route(
    catalog: Seq<DescriptorView>,
    name: Seq<char>,
    i: int,
    j: int,
)
    requires
        0 <= i < project_tools().len(),
        0 <= j < project_tools().len(),
    ensures
        i != j ==> route_of(project_tools()[i].name) != route_of(project_tools()[j].name),
        route_of(name) == Route::Operation <==> !(exists|k: int|
            0 <= k < project_tools().len() && (#[trigger] project_tools()[k]).name == name),
        match route_of(project_tools()[i].name) {
            Route::RegisterProject => project_tools()[i].input is RegisterProject,
            Route::UnregisterProject => project_tools()[i].input is ProjectId,
            Route::ListProjects => project_tools()[i].input is NoParams,
            Route::ProjectStatus => project_tools()[i].input is ProjectId,
            Route::ListOperations => project_tools()[i].input is ListOperations,
            Route::Operation => false,
        },
        all_tools(catalog).len() == project_tools().len() + catalog.len(),
        forall|k: int|
            0 <= k < catalog.len() ==> (#[trigger] all_tools(catalog)[project_tools().len() + k]).name
                == catalog[k].id && all_tools(catalog)[project_tools().len() + k].input
                == ToolInputView::Operation(ops::input_schema(catalog[k])),
        forall|k: int|
            0 <= k < project_tools().len() ==> #[trigger] all_tools(catalog)[k]
                == project_tools()[k],
{
    reveal_strlit("register_project");
    reveal_strlit("unregister_project");
    reveal_strlit("list_projects");
    reveal_strlit("project_status");
    reveal_strlit("list_operations");
    assert("register_project"@.len() == 16);
    assert("unregister_project"@.len() == 18);
    assert("list_projects"@.len() == 13);
    assert("project_status"@.len() == 14);
    assert("list_operations"@.len() == 15);
    let tools = project_tools();
    assert(tools[0].name == "register_project"@);
    assert(tools[1].name == "unregister_project"@);
    assert(tools[2].name == "list_projects"@);
    assert(tools[3].name == "project_status"@);
    assert(tools[4].name == "list_operations"@);
}

/// Whether paths are in order, each once.
pub open spec fn strictly_ordered(paths: Seq<Seq<char>>) -> bool {
    forall|i: int, j: int|
        0 <= i < j < paths.len() ==> path::path_before(#[trigger] paths[i], #[trigger] paths[j])
}

/// Whether a list has a path, written this way or another.
pub open spec fn has_place(paths: Seq<Seq<char>>, p: Seq<char>) -> bool {
    exists|i: int|
        0 <= i < paths.len() && path::components(#[trigger] paths[i]) == path::components(p)
}

/// One more path leaves a list in order, and with all that it had.
proof fn lemma_path_added(ordered: Seq<Seq<char>>, p: Seq<char>, q: Seq<char>)
    requires
        strictly_ordered(ordered),
    ensures
        strictly_ordered(path_added(ordered, p)),
        path_added(ordered, p).contains(q) ==> ordered.contains(q) || q == p,
        ordered.contains(q) ==> path_added(ordered, p).contains(q),
        has_place(path_added(ordered, p), p),
    decreases ordered.len(),
{
    let all = path_added(ordered, p);
    if ordered.len() == 0 {
        assert(all[0] == p);
    } else if path::components(p) == path::components(ordered[0]) {
        assert(path::components(all[0]) == path::components(p));
    } else if path::path_before(p, ordered[0]) {
        assert(all[0] == p);
        if ordered.contains(q) {
            assert(all[ordered.index_of(q) + 1] == q);
        }
        if all.contains(q) && q != p {
            assert(ordered[all.index_of(q) - 1] == q);
        }
        assert forall|i: int, j: int| 0 <= i < j < all.len() implies path::path_before(
            #[trigger] all[i],
            #[trigger] all[j],
        ) by {
            assert(all[j] == ordered[j - 1]);
            if i > 0 {
                assert(all[i] == ordered[i - 1]);
            } else if j > 1 {
                path::paths_are_in_one_order(p, ordered[0], ordered[j - 1]);
            }
        }
    } else {
        let rest = ordered.skip(1);
        let more = path_added(rest, p);
        assert(strictly_ordered(rest)) by {
            assert forall|i: int, j: int| 0 <= i < j < rest.len() implies path::path_before(
                #[trigger] rest[i],
                #[trigger] rest[j],
            ) by {
                assert(rest[i] == ordered[i + 1] && rest[j] == ordered[j + 1]);
            }
        }
        lemma_path_added(rest, p, q);
        assert(all[0] == ordered[0]);
        let k = choose|k: int|
            0 <= k < more.len() && path::components(#[trigger] more[k]) == path::components(p);
        assert(all[k + 1] == more[k]);
        if ordered.contains(q) && q != ordered[0] {
            assert(rest[ordered.index_of(q) - 1] == q);
        }
        if rest.contains(q) {
            assert(ordered[rest.index_of(q) + 1] == q);
        }
        if more.contains(q) {
            assert(all[more.index_of(q) + 1] == q);
        }
        if all.contains(q) && q != ordered[0] {
            assert(more[all.index_of(q) - 1] == q);
        }
        assert forall|i: int, j: int| 0 <= i < j < all.len() implies path::path_before(
            #[trigger] all[i],
            #[trigger] all[j],
        ) by {
            assert(all[j] == more[j - 1]);
            if i > 0 {
                assert(all[i] == more[i - 1]);
            } else {
                let y = more[j - 1];
                assert(more.contains(y));
                lemma_path_added(rest, p, y);
                if y == p {
                    path::paths_are_in_one_order(ordered[0], p, p);
                } else {
                    assert(ordered[rest.index_of(y) + 1] == y);
                }
            }
        }
    }
}

/// Places are listed in order, each once: all that there are, and no others.
pub proof fn places_are_listed_once_and_in_order(paths: Seq<Seq<char>>, p: Seq<char>)
    ensures
        strictly_ordered(in_order(paths)),
        in_order(paths).contains(p) ==> paths.contains(p),
        paths.contains(p) ==> has_place(in_order(paths), p),
    decreases paths.len(),
{
    if paths.len() > 0 {
        let front = paths.drop_last();
        let last = paths.last();
        let before = in_order(front);
        places_are_listed_once_and_in_order(front, p);
        lemma_path_added(before, last, p);
        assert(paths =~= front.push(last));
        assert(paths[paths.len() - 1] == last);
        if front.contains(p) {
            assert(paths[front.index_of(p)] == p);
            let k = choose|k: int|
                0 <= k < before.len() && path::components(#[trigger] before[k])
                    == path::components(p);
            assert(before.contains(before[k]));
            lemma_path_added(before, last, before[k]);
            let all = in_order(paths);
            assert(path::components(all[all.index_of(before[k])]) == path::components(p));
        }
        if paths.contains(p) && !front.contains(p) {
            let k = paths.index_of(p);
            if k < front.len() {
                assert(front[k] == p);
            }
        }
    }
}

/// What is suggested for a path that is missing is a directory, and another one; every
/// candidate that is one is suggested.
pub proof fn other_directories_are_suggested(
    places: Seq<Probed>,
    missing: Seq<char>,
    p: Seq<char>,
)
    ensures
        in_order(other_dirs(places, missing)).contains(p) ==> path::components(p)
            != path::components(missing) && exists|i: int|
            0 <= i < places.len() && (#[trigger] places[i]).present && places[i].path@ == p,
        forall|i: int|
            0 <= i < places.len() && (#[trigger] places[i]).present && path::components(
                places[i].path@,
            ) != path::components(missing) ==> has_place(
                in_order(other_dirs(places, missing)),
                places[i].path@,
            ),
{
    let found = other_dirs(places, missing);
    places_are_listed_once_and_in_order(found, p);
    lemma_other_dirs(places, missing, p);
    assert forall|i: int|
        0 <= i < places.len() && (#[trigger] places[i]).present && path::components(
            places[i].path@,
        ) != path::components(missing) implies has_place(in_order(found), places[i].path@) by {
        lemma_other_dirs(places, missing, places[i].path@);
        places_are_listed_once_and_in_order(found, places[i].path@);
    }
}

/// The other directories among some places.
proof fn lemma_other_dirs(places: Seq<Probed>, missing: Seq<char>, p: Seq<char>)
    ensures
        other_dirs(places, missing).contains(p) <==> path::components(p) != path::components(
            missing,
        ) && exists|i: int|
            0 <= i < places.len() && (#[trigger] places[i]).present && places[i].path@ == p,
    decreases places.len(),
{
    if places.len() > 0 {
        let front = places.drop_last();
        let before = other_dirs(front, missing);
        let all = other_dirs(places, missing);
        lemma_other_dirs(front, missing, p);
        assert(forall|i: int| 0 <= i < front.len() ==> #[trigger] places[i] == front[i]);
        if exists|i: int|
            0 <= i < front.len() && (#[trigger] front[i]).present && front[i].path@ == p {
            let i = choose|i: int|
                0 <= i < front.len() && (#[trigger] front[i]).present && front[i].path@ == p;
            assert(places[i] == front[i]);
        }
        if exists|i: int|
            0 <= i < places.len() && (#[trigger] places[i]).present && places[i].path@ == p {
            let i = choose|i: int|
                0 <= i < places.len() && (#[trigger] places[i]).present && places[i].path@ == p;
            if i < front.len() {
                assert(front[i] == places[i]);
            }
        }
        if before.contains(p) {
            assert(all[before.index_of(p)] == p);
        }
        let last = places[places.len() - 1];
        if last.present && path::components(last.path@) != path::components(missing) {
            assert(all[before.len() as int] == last.path@);
            if all.contains(p) && p != last.path@ {
                assert(before[all.index_of(p)] == p);
            }
        }
    }
}

/// The candidates for a path that is missing bear its name: one beside each project,
/// and one under the usual mount, where that is there.
pub proof fn candidates_bear_the_name(
    missing: Seq<char>,
    projects: Seq<ProjectView>,
    mounted: bool,
    name: Seq<char>,
    k: int,
)
    requires
        path::file_name_of(missing) == Some(name),
    ensures
        0 <= k < projects.len() ==> (path::parent_of(projects[k].root) matches Some(dir) ==> exists|
            root: Seq<char>,
        |
            path::components(root) == path::components(dir) && mount_paths(
                missing,
                projects,
                mounted,
            ).contains(#[trigger] path::joined(root, name))),
        mounted ==> exists|root: Seq<char>|
            path::components(root) == path::components("/workspaces"@) && mount_paths(
                missing,
                projects,
                mounted,
            ).contains(#[trigger] path::joined(root, name)),
        0 <= k < mount_paths(missing, projects, mounted).len() ==> exists|root: Seq<char>|
            mount_roots(projects, mounted).contains(root) && mount_paths(missing, projects, mounted)[k]
                == #[trigger] path::joined(root, name),
        path::file_name_of(missing) is None ==> mount_paths(missing, projects, mounted).len() == 0,
{
    let roots = mount_roots(projects, mounted);
    let listed = in_order(roots);
    let all = mount_paths(missing, projects, mounted);
    if 0 <= k < projects.len() {
        if let Some(dir) = path::parent_of(projects[k].root) {
            lemma_parents(projects, k);
            let i = parents(projects).index_of(dir);
            assert(roots[if mounted {
                i + 1
            } else {
                i
            }] == dir);
            lemma_candidate(roots, dir, name);
        }
    }
    if mounted {
        assert(roots[0] == "/workspaces"@);
        lemma_candidate(roots, "/workspaces"@, name);
    }
    if 0 <= k < all.len() {
        assert(listed.contains(listed[k]));
        places_are_listed_once_and_in_order(roots, listed[k]);
        assert(all[k] == path::joined(listed[k], name));
    }
}

/// A root is one of the candidates, with a name behind it.
proof fn lemma_candidate(roots: Seq<Seq<char>>, dir: Seq<char>, name: Seq<char>)
    requires
        roots.contains(dir),
    ensures
        exists|root: Seq<char>|
            path::components(root) == path::components(dir) && in_order(
                roots,
            ).map_values(|root: Seq<char>| path::joined(root, name)).contains(
                #[trigger] path::joined(root, name),
            ),
{
    let listed = in_order(roots);
    let all = listed.map_values(|root: Seq<char>| path::joined(root, name));
    places_are_listed_once_and_in_order(roots, dir);
    let i = choose|i: int|
        0 <= i < listed.len() && path::components(#[trigger] listed[i]) == path::components(dir);
    assert(all[i] == path::joined(listed[i], name));
    assert(all.contains(path::joined(listed[i], name)));
}

/// The directory of a project is among those of the projects.
proof fn lemma_parents(projects: Seq<ProjectView>, k: int)
    requires
        0 <= k < projects.len(),
        path::parent_of(projects[k].root) is Some,
    ensures
        parents(projects).contains(path::parent_of(projects[k].root).unwrap()),
    decreases projects.len(),
{
    let dir = path::parent_of(projects[k].root).unwrap();
    let front = projects.drop_last();
    let all = parents(projects);
    if k < front.len() {
        assert(front[k] == projects[k]);
        lemma_parents(front, k);
        assert(all[parents(front).index_of(dir)] == dir);
    } else {
        assert(all[all.len() - 1] == dir);
    }
}

/// The refusal of a path that is missing names the path and everything that is
/// suggested for it. Any other failed registration is answered like any failure.
pub proof fn missing_roots_are_answered_with_suggestions(
    e: ErrorView,
    missing: Seq<char>,
    suggestions: Seq<Seq<char>>,
    i: int,
)
    requires
        0 <= i < suggestions.len(),
    ensures
        registration_failed(ErrorView::PathNotFound(missing), suggestions) matches
            McpErrorView::InvalidParams(why) && text::contains_text(why, missing)
            && text::contains_text(why, suggestions[i]),
        !(e is PathNotFound) ==> registration_failed(e, suggestions) == error::answer_to(e),
{
    let a = "path does not exist inside Henka: `"@;
    let b = "`. Henka resolves paths on its own filesystem, not the caller's — when it runs in a container, host paths must be mounted (by convention under /workspaces) and registered by their in-container path."@;
    let c = " A mounted working copy of the same name exists at: "@;
    let d = " To keep registering by caller-side paths, set HENKA_PATH_MAP=<host-prefix>=<container-prefix>."@;
    let first = a + missing + b;
    let list = quoted(suggestions);
    let why = first + c + list + "."@ + d;
    assert(why =~= a + missing + (b + c + list + "."@ + d));
    text::lemma_stands_between(a, missing, b + c + list + "."@ + d);
    let (front, back) = lemma_quoted(suggestions, i);
    let part = suggestions[i];
    text::lemma_stands_between(first + c + front, part, back + "."@ + d);
    assert(why =~= (first + c + front) + part + (back + "."@ + d));
}

/// What stands around a path in a list of quoted ones.
proof fn lemma_quoted(paths: Seq<Seq<char>>, i: int) -> (r: (Seq<char>, Seq<char>))
    requires
        0 <= i < paths.len(),
    ensures
        quoted(paths) == r.0 + paths[i] + r.1,
    decreases paths.len(),
{
    if paths.len() == 1 {
        ("`"@, "`"@)
    } else if i == paths.len() - 1 {
        let front = quoted(paths.drop_last()) + ", "@ + "`"@;
        assert(quoted(paths) =~= front + paths[i] + "`"@);
        (front, "`"@)
    } else {
        let (a, b) = lemma_quoted(paths.drop_last(), i);
        let back = b + ", "@ + ("`"@ + paths.last() + "`"@);
        assert(paths.drop_last()[i] == paths[i]);
        assert(quoted(paths) =~= a + paths[i] + back);
        (a, back)
    }
}

} // verus!

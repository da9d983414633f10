//! The server: its projects, its providers, its catalog, and what becomes of a
//! call.
use vstd::prelude::*;

use crate::edit::applier;
use crate::edit::applier::Tree;
use crate::error::{Error, ErrorView};
use crate::json;
use crate::json::wire;
use crate::json::wire::print_pretty;
use crate::json::{Json, JsonView};
use crate::language;
use crate::language::Language;
use crate::operation;
use crate::operation::{
    DescriptorView, OperationDescriptor, OperationRegistry, Registered, Target, TargetKind,
    TargetView,
};
use crate::path;
use crate::path::PathBuf;
use crate::project::{contains_language, Project, ProjectView};
use crate::provider;
use crate::provider::ProviderRegistry;
use crate::registry;
use crate::registry::{ProjectRegistry, RootProbe};
use crate::server::catalog;
use crate::server::catalog::{
    descriptors_value, project_value, projects_value, Backend, Readiness, Tool,
};
use crate::server::dispatch;
use crate::server::dispatch::{At, EventView, Job, JobView, Stage, StageView, Step, StepView};
use crate::server::error;
use crate::server::error::{into_mcp, McpError, McpErrorView};
use crate::server::ops;
use crate::server::ops::{dry_run, expect, operation_params, parse_target, project_id};
use crate::server::pathmap;
use crate::server::pathmap::PathMap;
use crate::server::workspace;
use crate::server::workspace::{
    remap_target_file, resolve_workspace, WorkspaceSearch, WorkspaceSearchView,
};
use crate::text;
use crate::text::{cat3, cat5};

verus! {

/// The server. `P` makes the sessions of a provider, and `H` runs an operation.
#[derive(Debug)]
pub struct HenkaMcp<P, H> {
    /// The projects.
    pub registry: ProjectRegistry,
    /// The providers of the languages.
    pub providers: ProviderRegistry<P, Registered<H>>,
    /// The operations of all providers.
    pub operations: OperationRegistry<H>,
    /// What rewrites the paths of callers.
    pub path_map: PathMap,
}

/// What a [`HenkaMcp`] says.
pub struct ServerView<H> {
    /// The projects by id.
    pub projects: Map<Seq<char>, ProjectView>,
    /// The languages that have a provider.
    pub languages: Set<Language>,
    /// What the operations say of themselves, in the order in which they were added.
    pub operations: Seq<DescriptorView>,
    /// What runs the operations.
    pub handles: Seq<H>,
    /// The rewrites of paths.
    pub path_map: Seq<(Seq<char>, Seq<char>)>,
}

impl<P, H> View for HenkaMcp<P, H> {
    type V = ServerView<H>;

    open spec fn view(&self) -> ServerView<H> {
        ServerView {
            projects: self.registry@,
            languages: self.providers@.dom(),
            operations: self.operations@,
            handles: self.operations.handles(),
            path_map: self.path_map@,
        }
    }
}

// ---------------------------------------------------------------------------
// Starting an operation
// ---------------------------------------------------------------------------

/// The first of several languages that an operation applies to.
pub open spec fn first_applicable(languages: Seq<Language>, d: DescriptorView) -> Option<Language>
    decreases languages.len(),
{
    if languages.len() == 0 {
        None
    } else if d.languages.contains(languages[0]) {
        Some(languages[0])
    } else {
        first_applicable(languages.skip(1), d)
    }
}

/// The file that a call names, as the server sees it.
pub open spec fn named_file(
    path_map: Seq<(Seq<char>, Seq<char>)>,
    args: JsonView,
) -> Option<Seq<char>> {
    match args.get_text("file"@) {
        Some(f) => Some(
            if path::absolute(f) {
                pathmap::mapped(path_map, f)
            } else {
                f
            },
        ),
        None => None,
    }
}

/// The language of the file that a call names, if the project has it.
pub open spec fn file_language(
    path_map: Seq<(Seq<char>, Seq<char>)>,
    args: JsonView,
    project: ProjectView,
) -> Option<Language> {
    match named_file(path_map, args) {
        Some(f) => match language::path_language(f) {
            Some(l) if project.languages.contains(l) => Some(l),
            _ => None,
        },
        None => None,
    }
}

/// The language of the file that a target names, if the project has it.
pub open spec fn target_language(target: TargetView, project: ProjectView) -> Option<Language> {
    match target.file() {
        Some(f) => match language::path_language(f) {
            Some(l) if project.languages.contains(l) => Some(l),
            _ => None,
        },
        None => None,
    }
}

/// The operation that a call is for: the first of its name for any language of the
/// project. Where that one acts on a file, and the first of its name for the
/// language of the file does so too, it is the latter.
pub open spec fn operation_for<H>(
    server: ServerView<H>,
    name: Seq<char>,
    args: JsonView,
    project: ProjectView,
) -> Option<int> {
    let any = operation::resolved_at(server.operations, name, project.languages);
    match file_language(server.path_map, args, project) {
        Some(l) => preferred(
            server.operations,
            any,
            operation::resolved_at(
                server.operations,
                name,
                Seq::<Language>::empty().push(l),
            ),
        ),
        None => any,
    }
}

/// Of the first operation for any language and the first for the language of a
/// file, the one that a call is for.
pub open spec fn preferred(
    operations: Seq<DescriptorView>,
    any: Option<int>,
    own: Option<int>,
) -> Option<int> {
    match (any, own) {
        (Some(a), Some(o)) if operations[a].target != TargetKind::Project && operations[o].target
            != TargetKind::Project => own,
        _ => any,
    }
}

/// The language whose provider runs an operation: that of the file, if the
/// operation applies to it, else the first language of the project that the
/// operation applies to.
pub open spec fn language_for(
    of_file: Option<Language>,
    project: ProjectView,
    d: DescriptorView,
) -> Option<Language> {
    match of_file {
        Some(l) if d.languages.contains(l) => Some(l),
        _ => first_applicable(project.languages, d),
    }
}

/// The language of the file that a call names, if the project has it.
fn find_file_language(map: &PathMap, args: &Json, project: &Project) -> (r: Option<Language>)
    ensures
        r == file_language(map@, args@, project@),
{
    let file = match args.get_str("file") {
        Some(f) => PathBuf::new(f),
        None => return None,
    };
    let seen = if file.is_absolute() {
        map.map(&file)
    } else {
        file
    };
    match Language::from_path(&seen) {
        Some(l) => if project.has_language(l) {
            Some(l)
        } else {
            None
        },
        None => None,
    }
}

/// The language of the file that a target names, if the project has it.
fn find_target_language(target: &Target, project: &Project) -> (r: Option<Language>)
    ensures
        r == target_language(target@, project@),
{
    match target.file() {
        Some(file) => match Language::from_path(file) {
            Some(l) => if project.has_language(l) {
                Some(l)
            } else {
                None
            },
            None => None,
        },
        None => None,
    }
}

/// The language whose provider runs an operation.
fn choose_language(of_file: Option<Language>, project: &Project, d: &OperationDescriptor) -> (r:
    Option<Language>)
    ensures
        r == language_for(of_file, project@, d@),
{
    if let Some(l) = of_file {
        if d.applies_to(l) {
            return Some(l);
        }
    }
    let languages = &project.languages;
    let ghost want = language_for(of_file, project@, d@);
    let mut i: usize = 0;
    assert(languages@.skip(0) =~= languages@);
    while i < languages.len()
        invariant
            i <= languages@.len(),
            want == language_for(of_file, project@, d@),
            want == first_applicable(languages@.skip(i as int), d@),
        decreases languages@.len() - i,
    {
        assert(languages@.skip(i as int).skip(1) =~= languages@.skip(i + 1));
        if d.applies_to(languages[i]) {
            return Some(languages[i]);
        }
        i += 1;
    }
    None
}

/// A call of an operation once its project and its operation are known.
pub open spec fn started_with<H>(
    server: ServerView<H>,
    name: Seq<char>,
    args: JsonView,
    project: ProjectView,
    at: int,
) -> At<H> {
    let d = server.operations[at];
    match ops::target_of(args, d.target) {
        Err(e) => dispatch::refused(e),
        Ok(given) => {
            let target = workspace::remapped(server.path_map, given);
            match language_for(target_language(target, project), project, d) {
                None => dispatch::refused(
                    McpErrorView::InvalidParams(
                        "operation `"@ + name + "` does not apply to this project's languages"@,
                    ),
                ),
                Some(language) => if !server.languages.contains(language) {
                    dispatch::refused(
                        McpErrorView::Internal(
                            "no provider registered for `"@ + language::language_name(language)
                                + "`"@,
                        ),
                    )
                } else {
                    let job = JobView {
                        project,
                        operation: server.handles[at],
                        language,
                        target,
                        params: ops::params_of(args),
                        dry_run: ops::wants_preview(args),
                        expected: args.get_text("expect"@),
                    };
                    match workspace::workspace_search(
                        args,
                        target,
                        project.root,
                        server.path_map,
                    ) {
                        WorkspaceSearchView::At(ws) => dispatch::located(job, ws),
                        WorkspaceSearchView::Nearest(dirs) => (
                            StageView::FindRepository { job },
                            StepView::FindRepository { dirs },
                        ),
                    }
                },
            }
        },
    }
}

/// A call of an operation: it names a project and, by the name of the tool, an
/// operation that applies to one of the project's languages, to that of the file
/// that it acts on where it can.
pub open spec fn started<H>(server: ServerView<H>, name: Seq<char>, args: JsonView) -> At<H> {
    match args.get_text("project"@) {
        None => dispatch::refused(McpErrorView::InvalidParams("missing required `project`"@)),
        Some(id) => if !server.projects.dom().contains(id) {
            dispatch::refused(error::answer_to(ErrorView::ProjectNotFound(id)))
        } else {
            let project = server.projects[id];
            match operation_for(server, name, args, project) {
                None => dispatch::refused(
                    McpErrorView::InvalidParams(
                        "unknown tool or operation `"@ + name + "` for project `"@ + id + "`"@,
                    ),
                ),
                Some(at) => started_with(server, name, args, project, at),
            }
        },
    }
}

// ---------------------------------------------------------------------------
// Calls
// ---------------------------------------------------------------------------

/// A call, with its arguments read.
#[derive(Debug)]
pub enum Call {
    /// Register a directory as a project.
    RegisterProject {
        /// The directory, as the caller names it.
        root: String,
        /// The id of the project, if the caller chose one.
        id: Option<String>,
    },
    /// Forget a project.
    UnregisterProject {
        /// The id of the project.
        id: String,
    },
    /// List the projects.
    ListProjects,
    /// Report on a project.
    ProjectStatus {
        /// The id of the project.
        id: String,
    },
    /// List the operations of a project.
    ListOperations {
        /// The id of the project.
        project: String,
    },
    /// Run an operation.
    Operation {
        /// The name of its tool.
        name: String,
        /// The arguments.
        args: Json,
    },
}

/// What becomes of a call.
#[derive(Debug)]
pub enum Reaction<H> {
    /// Look at a directory, and register it as a project.
    Probe {
        /// The directory.
        root: PathBuf,
        /// The id of the project, if the caller chose one.
        id: Option<String>,
    },
    /// Look up the revision of a project, and report on it.
    Report {
        /// The project.
        project: Project,
    },
    /// Save the registry, and answer.
    Save {
        /// The answer.
        answer: Json,
    },
    /// Answer.
    Answer(Json),
    /// Refuse.
    Refuse(McpError),
    /// Go on step by step.
    Dispatch(Stage<H>, Step<H>),
}

/// What a [`Reaction`] says.
pub enum ReactionView<H> {
    Probe { root: Seq<char>, id: Option<Seq<char>> },
    Report { project: ProjectView },
    Save(JsonView),
    Answer(JsonView),
    Refuse(McpErrorView),
    Dispatch(StageView<H>, StepView<H>),
}

impl<H> View for Reaction<H> {
    type V = ReactionView<H>;

    open spec fn view(&self) -> ReactionView<H> {
        match self {
            Reaction::Probe { root, id } => ReactionView::Probe {
                root: root@,
                id: text::optional(*id),
            },
            Reaction::Report { project } => ReactionView::Report { project: project@ },
            Reaction::Save { answer } => ReactionView::Save(answer@),
            Reaction::Answer(v) => ReactionView::Answer(v@),
            Reaction::Refuse(e) => ReactionView::Refuse(e@),
            Reaction::Dispatch(stage, step) => ReactionView::Dispatch(stage@, step@),
        }
    }
}

/// What a call about a project leads to: that the project is not known, or what it
/// leads to for the project that is.
pub open spec fn about_project<H>(
    server: ServerView<H>,
    id: Seq<char>,
    known: ReactionView<H>,
) -> ReactionView<H> {
    if server.projects.dom().contains(id) {
        known
    } else {
        ReactionView::Refuse(error::answer_to(ErrorView::ProjectNotFound(id)))
    }
}

/// What a call leads to. `listing` lists the projects, and `operations` those of the
/// project that the call names.
pub open spec fn reaction_to<H>(
    server: ServerView<H>,
    listing: Seq<ProjectView>,
    operations: Seq<DescriptorView>,
    call: Call,
) -> ReactionView<H> {
    match call {
        Call::RegisterProject { root, id } => ReactionView::Probe {
            root: pathmap::mapped(server.path_map, root@),
            id: text::optional(id),
        },
        Call::UnregisterProject { id } => about_project(
            server,
            id@,
            ReactionView::Save(JsonView::Object(catalog::project_json(server.projects[id@]))),
        ),
        Call::ListProjects => ReactionView::Answer(listing_json(listing)),
        Call::ProjectStatus { id } => about_project(
            server,
            id@,
            ReactionView::Report { project: server.projects[id@] },
        ),
        Call::ListOperations { project } => about_project(
            server,
            project@,
            ReactionView::Answer(catalog_json(operations)),
        ),
        Call::Operation { name, args } => {
            let at = started(server, name@, args@);
            ReactionView::Dispatch(at.0, at.1)
        },
    }
}

/// The server once a call has been taken.
pub open spec fn server_after<H>(server: ServerView<H>, call: Call) -> ServerView<H> {
    match call {
        Call::UnregisterProject { id } => ServerView {
            projects: server.projects.remove(id@),
            ..server
        },
        _ => server,
    }
}

/// Whether operations are the catalog of the project that a call names.
pub open spec fn lists_for<H>(
    server: ServerView<H>,
    operations: Seq<DescriptorView>,
    call: Call,
) -> bool {
    match call {
        Call::ListOperations { project } => server.projects.dom().contains(project@)
            ==> operation::is_catalog(
            operation::applicable(server.operations, server.projects[project@].languages),
            operations,
        ),
        _ => true,
    }
}

/// The text that a call is answered with. Whoever reads it finds the answer in it,
/// where the answer can be sent.
pub fn ok_json(answer: &Json) -> (r: Result<String, McpError>)
    ensures
        match wire::pretty_text(answer@) {
            Some(told) => r matches Ok(s) && s@ == told,
            None => r matches Err(McpError::Internal(_)),
        },
        wire::sendable(answer@) ==> r is Ok && wire::json_in(
            vstd::utf8::encode_utf8(r->Ok_0@),
        ) == Some(json::in_order(answer@)),
{
    match print_pretty(answer) {
        Ok(s) => Ok(s),
        Err(why) => Err(McpError::Internal(why)),
    }
}

/// How far the backend of a language has come: whether a provider is there for it,
/// and whether a session for it serves the project.
pub open spec fn readiness_of(served: Set<Language>, running: Seq<Language>, l: Language) -> Backend {
    Backend {
        language: l,
        readiness: if !served.contains(l) {
            Readiness::Unavailable
        } else if running.contains(l) {
            Readiness::Ready
        } else {
            Readiness::Warming
        },
    }
}

/// What a list of projects is told as.
pub open spec fn listing_json(listing: Seq<ProjectView>) -> JsonView {
    JsonView::Array(
        listing.map_values(|p: ProjectView| JsonView::Object(catalog::project_json(p))),
    )
}

/// Telling a list of projects is telling what they say.
pub proof fn lemma_listing_json(listed: Seq<Project>, listing: Seq<ProjectView>)
    requires
        listed.map_values(|p: Project| p@) == listing,
    ensures
        JsonView::Array(
            listed.map_values(|p: Project| JsonView::Object(catalog::project_json(p@))),
        ) == listing_json(listing),
{
    assert(listed.map_values(|p: Project| JsonView::Object(catalog::project_json(p@)))
        =~= listing.map_values(|p: ProjectView| JsonView::Object(catalog::project_json(p)))) by {
        assert forall|i: int| 0 <= i < listed.len() implies listing[i] == #[trigger] listed[i]@ by {
            assert(listed.map_values(|p: Project| p@)[i] == listed[i]@);
        }
    }
}

/// What a list of operations is told as.
pub open spec fn catalog_json(listing: Seq<DescriptorView>) -> JsonView {
    JsonView::Array(listing.map_values(|d: DescriptorView| catalog::descriptor_json(d)))
}

/// What becomes of a call that names a project which is not there.
pub open spec fn unknown_project<H>(r: Reaction<H>, id: Seq<char>) -> bool {
    r matches Reaction::Refuse(e) && e@ == error::answer_to(ErrorView::ProjectNotFound(id))
}

impl<P, H> HenkaMcp<P, H> {
    /// The registries keep their invariants.
    pub open spec fn wf(&self) -> bool {
        self.registry.wf() && self.providers.wf()
    }
}

impl<P, H: Copy> HenkaMcp<P, H> {
    /// A server with the given projects and providers. Its catalog holds the
    /// operations of the providers.
    pub fn new(
        registry: ProjectRegistry,
        providers: ProviderRegistry<P, Registered<H>>,
        path_map: PathMap,
    ) -> (r: Self)
        requires
            registry.wf(),
            providers.wf(),
        ensures
            r.wf(),
            r.registry == registry,
            r.providers == providers,
            r.path_map == path_map,
            r@.operations == provider::operations_of(providers.listing()).map_values(
                |o: Registered<H>| o.descriptor@,
            ),
            r@.handles == provider::operations_of(providers.listing()).map_values(
                |o: Registered<H>| o.operation,
            ),
    {
        let mut operations: OperationRegistry<H> = OperationRegistry::new();
        let offered = providers.operations();
        let ghost all = provider::operations_of(providers.listing());
        let ghost descriptors = all.map_values(|o: Registered<H>| o.descriptor@);
        let ghost handles = all.map_values(|o: Registered<H>| o.operation);
        let mut i: usize = 0;
        assert(descriptors.take(0) =~= Seq::<DescriptorView>::empty());
        assert(handles.take(0) =~= Seq::<H>::empty());
        assert(offered@.map_values(|o: &Registered<H>| *o).len() == all.len());
        while i < offered.len()
            invariant
                i <= offered@.len(),
                offered@.len() == all.len(),
                offered@.map_values(|o: &Registered<H>| *o) == all,
                descriptors == all.map_values(|o: Registered<H>| o.descriptor@),
                handles == all.map_values(|o: Registered<H>| o.operation),
                operations@ == descriptors.take(i as int),
                operations.handles() == handles.take(i as int),
            decreases offered@.len() - i,
        {
            proof {
                assert(offered@.map_values(|o: &Registered<H>| *o)[i as int] == *offered@[i as int]);
                assert(descriptors.take(i + 1) =~= descriptors.take(i as int).push(
                    descriptors[i as int],
                ));
                assert(handles.take(i + 1) =~= handles.take(i as int).push(handles[i as int]));
            }
            operations.push(offered[i].descriptor.copy(), offered[i].operation);
            i += 1;
        }
        assert(descriptors.take(i as int) =~= descriptors);
        assert(handles.take(i as int) =~= handles);
        HenkaMcp { registry, providers, operations, path_map }
    }

    /// The tools of the server.
    pub fn tools(&self) -> (r: Vec<Tool>)
        ensures
            exists|listing: Seq<DescriptorView>| #[trigger]
                operation::is_catalog(self@.operations, listing) && catalog::tool_views(r@)
                    == catalog::all_tools(listing),
    {
        let r = catalog::tools(&self.operations);
        proof {
            let listing = choose|listing: Seq<DescriptorView>| #[trigger]
                operation::is_catalog(self.operations@, listing) && catalog::tool_views(r@)
                    == catalog::all_tools(listing);
            assert(operation::is_catalog(self@.operations, listing));
        }
        r
    }

    /// The operation of a name: the first for any language of the project, or the
    /// first for the language of the file, where both act on a file.
    fn find_operation(&self, name: &str, of_file: Option<Language>, project: &Project) -> (r:
        Option<&Registered<H>>)
        ensures
            ({
                let any = operation::resolved_at(self@.operations, name@, project@.languages);
                let at = match of_file {
                    Some(l) => preferred(
                        self@.operations,
                        any,
                        operation::resolved_at(
                            self@.operations,
                            name@,
                            Seq::<Language>::empty().push(l),
                        ),
                    ),
                    None => any,
                };
                match (r, at) {
                    (Some(found), Some(at)) => 0 <= at < self@.operations.len()
                        && found.operation == self@.handles[at] && found.descriptor@
                        == self@.operations[at],
                    (None, None) => true,
                    _ => false,
                }
            }),
    {
        let any = match self.operations.resolve(name, &project.languages) {
            Ok(found) => found,
            Err(_) => return None,
        };
        if let Some(l) = of_file {
            let mut own: Vec<Language> = Vec::new();
            own.push(l);
            if let Ok(found) = self.operations.resolve(name, &own) {
                if any.descriptor.target != TargetKind::Project && found.descriptor.target
                    != TargetKind::Project {
                    return Some(found);
                }
            }
        }
        Some(any)
    }

    /// Starts a call of the operation `name`.
    pub fn dispatch_operation(&self, name: &str, args: &Json) -> (r: (Stage<H>, Step<H>))
        requires
            self.wf(),
        ensures
            (r.0@, r.1@) == started(self@, name@, args@),
    {
        let id = match project_id(args) {
            Ok(id) => id,
            Err(e) => return (Stage::Over, Step::Refuse(e)),
        };
        let project = match self.registry.get(id.as_str()) {
            Ok(project) => project,
            Err(e) => return (Stage::Over, Step::Refuse(into_mcp(&e))),
        };
        let of_file = find_file_language(&self.path_map, args, project);
        let found = match self.find_operation(name, of_file, project) {
            Some(found) => found,
            None => return (
                Stage::Over,
                Step::Refuse(
                    McpError::InvalidParams(
                        cat5(
                            "unknown tool or operation `",
                            name,
                            "` for project `",
                            id.as_str(),
                            "`",
                        ),
                    ),
                ),
            ),
        };
        let mut target = match parse_target(args, found.descriptor.target) {
            Ok(target) => target,
            Err(e) => return (Stage::Over, Step::Refuse(e)),
        };
        remap_target_file(&self.path_map, &mut target);
        let language = match choose_language(
            find_target_language(&target, project),
            project,
            &found.descriptor,
        ) {
            Some(language) => language,
            None => return (
                Stage::Over,
                Step::Refuse(
                    McpError::InvalidParams(
                        cat3(
                            "operation `",
                            name,
                            "` does not apply to this project's languages",
                        ),
                    ),
                ),
            ),
        };
        if self.providers.get(language).is_none() {
            return (
                Stage::Over,
                Step::Refuse(
                    McpError::Internal(
                        cat3("no provider registered for `", language.as_str(), "`"),
                    ),
                ),
            );
        }
        let search = resolve_workspace(args, &target, &project.root, &self.path_map);
        let job = Job {
            project: project.copy(),
            operation: found.operation,
            language,
            target,
            params: operation_params(args),
            dry_run: dry_run(args),
            expected: expect(args),
        };
        match search {
            WorkspaceSearch::At(workspace) => {
                let step = Step::Identify {
                    workspace: workspace.clone(),
                    project_root: project.root.clone(),
                };
                (Stage::Identify { job, workspace }, step)
            },
            WorkspaceSearch::Nearest(dirs) => (
                Stage::FindRepository { job },
                Step::FindRepository { dirs },
            ),
        }
    }

    /// Registers a directory that has been looked at, and answers with the project.
    pub fn register_project(&mut self, id: Option<String>, probe: &RootProbe) -> (r: Result<
        Json,
        Error,
    >)
        requires
            old(self).wf(),
        ensures
            final(self).wf(),
            final(self).registry.config_file() == old(self).registry.config_file(),
            final(self).providers == old(self).providers,
            match registry::registration(old(self)@.projects, text::optional(id), probe@) {
                Ok(p) => r matches Ok(v) && v@ == JsonView::Object(catalog::project_json(p))
                    && final(self)@ == (ServerView {
                    projects: old(self)@.projects.insert(p.id, p),
                    ..old(self)@
                }),
                Err(want) => r matches Err(e) && e@ == want && final(self)@ == old(self)@,
            },
    {
        match self.registry.register(id, probe) {
            Ok(project) => Ok(project_value(&project)),
            Err(e) => Err(e),
        }
    }

    /// The backends of a project's languages. `running` holds the languages for
    /// which a session serves the project.
    pub fn backends(&self, project: &Project, running: &Vec<Language>) -> (r: Vec<Backend>)
        requires
            self.wf(),
        ensures
            r@ == project@.languages.map_values(
                |l: Language| readiness_of(self@.languages, running@, l),
            ),
    {
        let languages = &project.languages;
        let ghost want = languages@.map_values(
            |l: Language| readiness_of(self@.languages, running@, l),
        );
        let mut out: Vec<Backend> = Vec::new();
        let mut i: usize = 0;
        while i < languages.len()
            invariant
                i <= languages@.len(),
                self.wf(),
                want == languages@.map_values(
                    |l: Language| readiness_of(self@.languages, running@, l),
                ),
                out@ == want.take(i as int),
            decreases languages@.len() - i,
        {
            let language = languages[i];
            let readiness = if self.providers.get(language).is_none() {
                Readiness::Unavailable
            } else if contains_language(running, language) {
                Readiness::Ready
            } else {
                Readiness::Warming
            };
            out.push(Backend { language, readiness });
            assert(want.take(i + 1) =~= want.take(i as int).push(want[i as int]));
            i += 1;
        }
        assert(want.take(i as int) =~= want);
        out
    }

    /// Takes a call.
    pub fn handle_call(&mut self, call: Call) -> (r: Reaction<H>)
        requires
            old(self).wf(),
        ensures
            final(self).wf(),
            final(self).registry.config_file() == old(self).registry.config_file(),
            final(self).providers == old(self).providers,
            match call {
                Call::UnregisterProject { id } => final(self)@ == (ServerView {
                    projects: old(self)@.projects.remove(id@),
                    ..old(self)@
                }),
                _ => final(self)@ == old(self)@,
            },
            match call {
                Call::RegisterProject { root, id } => r matches Reaction::Probe {
                    root: at,
                    id: chosen,
                } && at@ == pathmap::mapped(old(self)@.path_map, root@) && chosen == id,
                Call::UnregisterProject { id } => if old(self)@.projects.dom().contains(id@) {
                    r matches Reaction::Save { answer } && answer@ == JsonView::Object(
                        catalog::project_json(old(self)@.projects[id@]),
                    )
                } else {
                    unknown_project(r, id@)
                },
                Call::ListProjects => r matches Reaction::Answer(v) && v@ == listing_json(
                    old(self).registry.listing(),
                ),
                Call::ProjectStatus { id } => if old(self)@.projects.dom().contains(id@) {
                    r matches Reaction::Report { project } && project@
                        == old(self)@.projects[id@]
                } else {
                    unknown_project(r, id@)
                },
                Call::ListOperations { project } => if old(self)@.projects.dom().contains(
                    project@,
                ) {
                    r matches Reaction::Answer(v) && exists|listing: Seq<DescriptorView>|
                        #[trigger] operation::is_catalog(
                            operation::applicable(
                                old(self)@.operations,
                                old(self)@.projects[project@].languages,
                            ),
                            listing,
                        ) && v@ == catalog_json(listing)
                } else {
                    unknown_project(r, project@)
                },
                Call::Operation { name, args } => r matches Reaction::Dispatch(stage, step) && (
                stage@,
                step@,
                ) == started(old(self)@, name@, args@),
            },
            final(self)@ == server_after(old(self)@, call),
            exists|operations: Seq<DescriptorView>| #[trigger]
                lists_for(old(self)@, operations, call) && r@ == reaction_to(
                    old(self)@,
                    old(self).registry.listing(),
                    operations,
                    call,
                ),
    {
        proof {
            lemma_some_listing(*old(self), call);
        }
        match call {
            Call::RegisterProject { root, id } => Reaction::Probe {
                root: self.path_map.map(&PathBuf::new(root.as_str())),
                id,
            },
            Call::UnregisterProject { id } => match self.registry.unregister(id.as_str()) {
                Ok(project) => Reaction::Save { answer: project_value(&project) },
                Err(e) => {
                    assert(old(self)@.projects.remove(id@) =~= old(self)@.projects);
                    Reaction::Refuse(into_mcp(&e))
                },
            },
            Call::ListProjects => {
                let listed = self.registry.list();
                proof {
                    lemma_listing_json(listed@, self.registry.listing());
                }
                Reaction::Answer(projects_value(listed))
            },
            Call::ProjectStatus { id } => match self.registry.get(id.as_str()) {
                Ok(project) => Reaction::Report { project: project.copy() },
                Err(e) => Reaction::Refuse(into_mcp(&e)),
            },
            Call::ListOperations { project } => match self.registry.get(project.as_str()) {
                Ok(project) => {
                    let listed = self.operations.descriptors_for(project);
                    assert(lists_for(
                        old(self)@,
                        operation::descriptor_views(listed@),
                        call,
                    ));
                    assert(operation::is_catalog(
                        operation::applicable(self@.operations, project@.languages),
                        operation::descriptor_views(listed@),
                    ));
                    Reaction::Answer(descriptors_value(&listed))
                },
                Err(e) => Reaction::Refuse(into_mcp(&e)),
            },
            Call::Operation { name, args } => {
                let (stage, step) = self.dispatch_operation(name.as_str(), &args);
                Reaction::Dispatch(stage, step)
            },
        }
    }
}

// ---------------------------------------------------------------------------
// Laws
// ---------------------------------------------------------------------------

/// A call writes only if it says `dry_run: false`: without that, no step of the
/// call applies an edit, whatever comes of its steps.
pub proof fn calls_are_previews_by_default<H>(
    server: ServerView<H>,
    name: Seq<char>,
    args: JsonView,
    events: Seq<EventView>,
    i: int,
)
    requires
        args.get("dry_run"@) != Some(JsonView::Bool(false)),
        0 <= i < dispatch::steps_of(started(server, name, args), events).len(),
    ensures
        !(dispatch::steps_of(started(server, name, args), events)[i] is Perform),
{
    dispatch::previews_never_write(started(server, name, args), events, i);
}

/// A call that names a working copy writes into that working copy and nowhere
/// else, whatever comes of its steps.
pub proof fn named_workspaces_confine_calls<H>(
    server: ServerView<H>,
    name: Seq<char>,
    args: JsonView,
    workspace: Seq<char>,
    events: Seq<EventView>,
    i: int,
)
    requires
        ops::named_workspace(args) == Some(workspace),
        0 <= i < dispatch::steps_of(started(server, name, args), events).len(),
    ensures
        dispatch::writes_inside(
            dispatch::steps_of(started(server, name, args), events)[i],
            pathmap::mapped(server.path_map, workspace),
        ),
{
    dispatch::writes_stay_in_the_workspace(
        started(server, name, args),
        pathmap::mapped(server.path_map, workspace),
        events,
        i,
    );
}

/// A call that names no working copy and no absolute file writes into the project
/// root and nowhere else, whatever comes of its steps.
pub proof fn other_calls_are_confined_to_the_project<H>(
    server: ServerView<H>,
    name: Seq<char>,
    args: JsonView,
    id: Seq<char>,
    events: Seq<EventView>,
    i: int,
)
    requires
        ops::named_workspace(args) is None,
        args.get_text("file"@) matches Some(file) ==> !path::absolute(file),
        args.get_text("project"@) == Some(id),
        0 <= i < dispatch::steps_of(started(server, name, args), events).len(),
    ensures
        dispatch::writes_inside(
            dispatch::steps_of(started(server, name, args), events)[i],
            server.projects[id].root,
        ),
{
    dispatch::writes_stay_in_the_workspace(
        started(server, name, args),
        server.projects[id].root,
        events,
        i,
    );
}

/// An operation that starts is one of the catalog, under the name of the tool, and
/// a provider is there for its language.
pub proof fn started_calls_are_served<H>(server: ServerView<H>, name: Seq<char>, args: JsonView)
    ensures
        match started(server, name, args).0 {
            StageView::Identify { job, .. } => served(server, name, job),
            StageView::FindRepository { job } => served(server, name, job),
            _ => started(server, name, args).1 is Refuse,
        },
{
    if let Some(id) = args.get_text("project"@) {
        if server.projects.dom().contains(id) {
            let project = server.projects[id];
            lemma_operation_for(server, name, args, project);
            if let Some(at) = operation_for(server, name, args, project) {
                lemma_first_applicable(project.languages, server.operations[at]);
                assert(server.operations[at].id == name);
            }
        }
    }
}

/// Whether the first operation of a name for one of several languages acts on a
/// file.
pub open spec fn acts_on_a_file(
    operations: Seq<DescriptorView>,
    name: Seq<char>,
    languages: Seq<Language>,
) -> bool {
    operation::resolved_at(operations, name, languages) matches Some(at) && operations[at].target
        != TargetKind::Project
}

/// The operation of a call has its name. Where operations of that name act on files,
/// it applies to the language of the file.
proof fn lemma_operation_for<H>(
    server: ServerView<H>,
    name: Seq<char>,
    args: JsonView,
    project: ProjectView,
)
    ensures
        operation_for(server, name, args, project) matches Some(at) ==> 0 <= at
            < server.operations.len() && server.operations[at].id == name,
        (file_language(server.path_map, args, project) matches Some(l) && acts_on_a_file(
            server.operations,
            name,
            project.languages,
        ) && acts_on_a_file(server.operations, name, Seq::<Language>::empty().push(l))) ==> (
        operation_for(server, name, args, project) matches Some(at)
            && server.operations[at].target != TargetKind::Project
            && server.operations[at].languages.contains(
            file_language(server.path_map, args, project)->0,
        )),
{
    operation::resolve_finds_the_first_match(server.operations, name, project.languages);
    if let Some(l) = file_language(server.path_map, args, project) {
        let own = Seq::<Language>::empty().push(l);
        operation::resolve_finds_the_first_match(server.operations, name, own);
        assert forall|d: DescriptorView| operation::applies_to_any(d, own) implies #[trigger]
            d.languages.contains(l) by {}
    }
}

/// A call on a file goes to the language of the file: where the project has that
/// language, and the operations of the name act on files, for the project and for
/// that language, the call runs an operation for that language in a session for it.
pub proof fn calls_go_to_the_language_of_their_file<H>(
    server: ServerView<H>,
    name: Seq<char>,
    args: JsonView,
    id: Seq<char>,
    file: Seq<char>,
    l: Language,
)
    requires
        args.get_text("project"@) == Some(id),
        server.projects.dom().contains(id),
        named_file(server.path_map, args) == Some(file),
        language::path_language(file) == Some(l),
        server.projects[id].languages.contains(l),
        acts_on_a_file(server.operations, name, server.projects[id].languages),
        acts_on_a_file(server.operations, name, Seq::<Language>::empty().push(l)),
    ensures
        match started(server, name, args).0 {
            StageView::Identify { job, .. } => in_language(server, name, job, l)
                && job.target.file() == Some(file),
            StageView::FindRepository { job } => in_language(server, name, job, l)
                && job.target.file() == Some(file),
            _ => started(server, name, args).1 is Refuse,
        },
{
    let project = server.projects[id];
    lemma_operation_for(server, name, args, project);
    let at = operation_for(server, name, args, project)->0;
    assert(server.operations[at].id == name && server.operations[at].languages.contains(l));
}

/// Whether two calls are the same but for the file that they name.
pub open spec fn same_but_for_file(a: JsonView, b: JsonView) -> bool {
    &&& ops::params_of(a) == ops::params_of(b)
    &&& forall|key: Seq<char>| key != "file"@ ==> #[trigger] a.get(key) == b.get(key)
}

/// A call of an operation that acts on the whole project does not depend on a file
/// that it names all the same.
pub proof fn project_wide_calls_name_no_file<H>(
    server: ServerView<H>,
    name: Seq<char>,
    a: JsonView,
    b: JsonView,
    id: Seq<char>,
    at: int,
)
    requires
        same_but_for_file(a, b),
        a.get_text("project"@) == Some(id),
        server.projects.dom().contains(id),
        operation::resolved_at(server.operations, name, server.projects[id].languages) == Some(at),
        server.operations[at].target == TargetKind::Project,
    ensures
        started(server, name, a) == started(server, name, b),
        match started(server, name, a).0 {
            StageView::Identify { job, .. } => job.operation == server.handles[at]
                && job.target == TargetView::Project && Some(job.language) == first_applicable(
                server.projects[id].languages,
                server.operations[at],
            ),
            _ => started(server, name, a).1 is Refuse,
        },
{
    reveal_strlit("file");
    reveal_strlit("project");
    reveal_strlit("workspace");
    reveal_strlit("dry_run");
    reveal_strlit("expect");
    assert("project"@[0] != "file"@[0]);
    assert("workspace"@[0] != "file"@[0]);
    assert("dry_run"@[0] != "file"@[0]);
    assert("expect"@[0] != "file"@[0]);
    let project = server.projects[id];
    assert(operation_for(server, name, a, project) == Some(at));
    assert(operation_for(server, name, b, project) == Some(at));
    assert(b.get_text("project"@) == Some(id));
    assert(ops::named_workspace(a) == ops::named_workspace(b));
    assert(ops::wants_preview(a) == ops::wants_preview(b));
}

/// Whether a job is in a language, for a registered operation of that name that
/// applies to the language.
pub open spec fn in_language<H>(
    server: ServerView<H>,
    name: Seq<char>,
    job: JobView<H>,
    l: Language,
) -> bool {
    &&& job.language == l
    &&& exists|at: int|
        0 <= at < server.operations.len() && (#[trigger] server.operations[at]).id == name
            && server.operations[at].languages.contains(l) && job.operation == server.handles[at]
}

/// Whether a job is for a registered operation of that name, in a language that the
/// operation applies to and a provider is there for.
pub open spec fn served<H>(server: ServerView<H>, name: Seq<char>, job: JobView<H>) -> bool {
    &&& server.languages.contains(job.language)
    &&& job.project.languages.contains(job.language)
    &&& exists|at: int|
        0 <= at < server.operations.len() && (#[trigger] server.operations[at]).id == name
            && server.operations[at].languages.contains(job.language) && job.operation
            == server.handles[at]
}

/// The first applicable language is one of the languages, and applicable.
proof fn lemma_first_applicable(languages: Seq<Language>, d: DescriptorView)
    ensures
        first_applicable(languages, d) matches Some(l) ==> languages.contains(l)
            && d.languages.contains(l),
    decreases languages.len(),
{
    if languages.len() > 0 {
        lemma_first_applicable(languages.skip(1), d);
        if d.languages.contains(languages[0]) {
            assert(languages.contains(languages[0]));
        } else if let Some(l) = first_applicable(languages.skip(1), d) {
            let i = languages.skip(1).index_of(l);
            assert(languages[i + 1] == languages.skip(1)[i]);
        }
    }
}

/// Calls that are the same but for `dry_run` start alike.
proof fn lemma_started_alike<H>(
    server: ServerView<H>,
    name: Seq<char>,
    preview: JsonView,
    write: JsonView,
)
    requires
        ops::same_but_for_preview(preview, write),
        ops::wants_preview(preview),
        !ops::wants_preview(write),
    ensures
        started(server, name, write) == (
            dispatch::writing(started(server, name, preview).0),
            started(server, name, preview).1,
        ),
        !dispatch::may_write(started(server, name, preview).0),
{
    lemma_other_fields_agree(preview, write);
    if let Some(id) = preview.get_text("project"@) {
        if server.projects.dom().contains(id) {
            let project = server.projects[id];
            lemma_read_alike(server, name, preview, write, project);
            if let Some(at) = operation_for(server, name, preview, project) {
                lemma_started_with_alike(server, name, preview, write, project, at);
            }
        }
    }
}

/// Calls that are the same but for `dry_run` are for the same operation and the same
/// language.
proof fn lemma_read_alike<H>(
    server: ServerView<H>,
    name: Seq<char>,
    preview: JsonView,
    write: JsonView,
    project: ProjectView,
)
    requires
        ops::same_but_for_preview(preview, write),
    ensures
        file_language(server.path_map, preview, project) == file_language(
            server.path_map,
            write,
            project,
        ),
        operation_for(server, name, preview, project) == operation_for(
            server,
            name,
            write,
            project,
        ),
{
    lemma_other_fields_agree(preview, write);
    assert(named_file(server.path_map, preview) == named_file(server.path_map, write));
}

/// Calls that are the same but for `dry_run` are for the same target in the same
/// working copy.
proof fn lemma_aimed_alike<H>(
    server: ServerView<H>,
    preview: JsonView,
    write: JsonView,
    kind: operation::TargetKind,
    target: TargetView,
    root: Seq<char>,
)
    requires
        ops::same_but_for_preview(preview, write),
    ensures
        ops::target_of(preview, kind) == ops::target_of(write, kind),
        workspace::workspace_search(preview, target, root, server.path_map)
            == workspace::workspace_search(write, target, root, server.path_map),
{
    lemma_other_fields_agree(preview, write);
    assert(ops::required_position(preview, "line"@, "character"@) == ops::required_position(
        write,
        "line"@,
        "character"@,
    ));
    assert(ops::required_position(preview, "start_line"@, "start_character"@)
        == ops::required_position(write, "start_line"@, "start_character"@));
    assert(ops::required_position(preview, "end_line"@, "end_character"@)
        == ops::required_position(write, "end_line"@, "end_character"@));
}

/// Calls that are the same but for `dry_run` start alike, once their operation is
/// known.
proof fn lemma_started_with_alike<H>(
    server: ServerView<H>,
    name: Seq<char>,
    preview: JsonView,
    write: JsonView,
    project: ProjectView,
    at: int,
)
    requires
        ops::same_but_for_preview(preview, write),
        ops::wants_preview(preview),
        !ops::wants_preview(write),
    ensures
        started_with(server, name, write, project, at) == (
            dispatch::writing(started_with(server, name, preview, project, at).0),
            started_with(server, name, preview, project, at).1,
        ),
        !dispatch::may_write(started_with(server, name, preview, project, at).0),
{
    let kind = server.operations[at].target;
    lemma_read_alike(server, name, preview, write, project);
    assert(preview.get_text("expect"@) == write.get_text("expect"@)) by {
        lemma_other_fields_agree(preview, write);
    }
    assert(ops::target_of(preview, kind) == ops::target_of(write, kind)) by {
        lemma_aimed_alike(server, preview, write, kind, TargetView::Project, project.root);
    }
    if let Ok(given) = ops::target_of(preview, kind) {
        let target = workspace::remapped(server.path_map, given);
        assert(workspace::workspace_search(preview, target, project.root, server.path_map)
            == workspace::workspace_search(write, target, project.root, server.path_map)) by {
            lemma_aimed_alike(server, preview, write, kind, target, project.root);
        }
    }
}

/// The fields that a call is read by, but for `dry_run`.
proof fn lemma_other_fields_agree(preview: JsonView, write: JsonView)
    requires
        ops::same_but_for_preview(preview, write),
    ensures
        preview.get("project"@) == write.get("project"@),
        preview.get("workspace"@) == write.get("workspace"@),
        preview.get("file"@) == write.get("file"@),
        preview.get("line"@) == write.get("line"@),
        preview.get("character"@) == write.get("character"@),
        preview.get("start_line"@) == write.get("start_line"@),
        preview.get("start_character"@) == write.get("start_character"@),
        preview.get("end_line"@) == write.get("end_line"@),
        preview.get("end_character"@) == write.get("end_character"@),
        preview.get("expect"@) == write.get("expect"@),
{
    reveal_strlit("dry_run");
    reveal_strlit("project");
    reveal_strlit("workspace");
    reveal_strlit("file");
    reveal_strlit("line");
    reveal_strlit("character");
    reveal_strlit("start_line");
    reveal_strlit("start_character");
    reveal_strlit("end_line");
    reveal_strlit("end_character");
    reveal_strlit("expect");
    assert("project"@[0] != "dry_run"@[0]);
    assert("workspace"@[0] != "dry_run"@[0]);
    assert("file"@[0] != "dry_run"@[0]);
    assert("line"@[0] != "dry_run"@[0]);
    assert("character"@[0] != "dry_run"@[0]);
    assert("start_line"@[0] != "dry_run"@[0]);
    assert("start_character"@[0] != "dry_run"@[0]);
    assert("end_line"@[0] != "dry_run"@[0]);
    assert("end_character"@[0] != "dry_run"@[0]);
    assert("expect"@[0] != "dry_run"@[0]);
}

/// What a preview shows is what comes about: a call goes by the same steps as its
/// preview, given that the same comes of them, until the files of its edit have been
/// read. The preview answers with the diffs of the edit; the call applies that edit,
/// every text that it writes is in one of the diffs, and it answers with them too.
/// Where the preview is refused or answered earlier, the call is too, and alike.
pub proof fn writing_does_what_its_preview_showed<H>(
    server: ServerView<H>,
    name: Seq<char>,
    preview: JsonView,
    write: JsonView,
    events: Seq<EventView>,
    event: EventView,
)
    requires
        ops::same_but_for_preview(preview, write),
        ops::wants_preview(preview),
        !ops::wants_preview(write),
    ensures
        ({
            let p = dispatch::reached(started(server, name, preview), events);
            let q = dispatch::reached(started(server, name, write), events);
            !(p.0 is Over) ==> {
                &&& q == (dispatch::writing(p.0), p.1)
                &&& match (p.0, event) {
                    (
                        StageView::ReadSources { workspace, edit, .. },
                        EventView::Sources(sources),
                    ) => dispatch::does_what_is_shown(
                        dispatch::next_of(p.0, event),
                        dispatch::next_of(q.0, event),
                        edit,
                        workspace,
                        sources,
                    ),
                    _ => dispatch::next_of(q.0, event) == (
                        dispatch::writing(dispatch::next_of(p.0, event).0),
                        dispatch::next_of(p.0, event).1,
                    ),
                }
            }
        }),
        started(server, name, preview).0 is Over ==> started(server, name, write) == started(
            server,
            name,
            preview,
        ),
{
    let first = started(server, name, preview);
    let p = dispatch::reached(first, events);
    lemma_started_alike(server, name, preview, write);
    if !(p.0 is Over) {
        dispatch::writing_goes_the_way_of_the_preview(first, events);
        match (p.0, event) {
            (StageView::ReadSources { .. }, EventView::Sources(sources)) => {
                dispatch::writing_does_what_the_preview_shows(p.0, sources);
            },
            _ => {
                dispatch::lemma_same_way(p.0, event);
            },
        }
    }
}

/// Previewing is the default, and applying does what was shown. A call that does not
/// say `dry_run` leaves every file as it was and answers with the diffs of its edit.
/// The same call with `dry_run` set to false, where the same comes of its steps and
/// the files have not changed in between, gives every file the text that its diff was
/// made of, does the file operations, leaves all other files alone, and answers with
/// the same diffs.
pub proof fn calls_preview_first_and_apply_when_told<H>(
    server: ServerView<H>,
    name: Seq<char>,
    members: Seq<(Seq<char>, JsonView)>,
    events: Seq<EventView>,
    sources: Seq<Result<Seq<char>, Seq<char>>>,
    tree: Tree,
)
    requires
        json::lookup(members, "dry_run"@) is None,
        dispatch::reached(
            started(server, name, JsonView::Object(members)),
            events,
        ).0 matches StageView::ReadSources { workspace, edit, .. } && sources.len()
            == edit.files.len() && applier::read_from(tree, edit.files, workspace, sources),
    ensures
        dispatch::shows_and_writes(
            started(server, name, JsonView::Object(members)),
            started(
                server,
                name,
                JsonView::Object(members.push(("dry_run"@, JsonView::Bool(false)))),
            ),
            events,
            sources,
            tree,
        ),
{
    let preview = JsonView::Object(members);
    let write = JsonView::Object(members.push(("dry_run"@, JsonView::Bool(false))));
    ops::calls_are_previews_unless_they_say_otherwise(members);
    lemma_started_alike(server, name, preview, write);
    dispatch::preview_shows_and_call_writes(
        started(server, name, preview),
        events,
        sources,
        tree,
    );
}

/// A backend is ready if a session serves the project and a provider is there, warming
/// if only the provider is, and not available without one, whatever runs.
pub proof fn readiness_is_that_of_the_language(
    served: Set<Language>,
    running: Seq<Language>,
    l: Language,
)
    ensures
        readiness_of(served, running, l).language == l,
        readiness_of(served, running, l).readiness == Readiness::Unavailable <==> !served.contains(
            l,
        ),
        readiness_of(served, running, l).readiness == Readiness::Ready <==> served.contains(l)
            && running.contains(l),
        readiness_of(served, running, l).readiness == Readiness::Warming <==> served.contains(l)
            && !running.contains(l),
{
}

/// A list of projects is told project by project, and a list of operations operation
/// by operation, in order.
pub proof fn lists_are_told_one_by_one(
    projects: Seq<ProjectView>,
    operations: Seq<DescriptorView>,
)
    ensures
        listing_json(projects) matches JsonView::Array(items) && items.len() == projects.len() && (
        forall|i: int|
            0 <= i < items.len() ==> #[trigger] items[i] == JsonView::Object(
                catalog::project_json(projects[i]),
            )),
        catalog_json(operations) matches JsonView::Array(items) && items.len() == operations.len()
            && (forall|i: int|
            0 <= i < items.len() ==> #[trigger] items[i] == catalog::descriptor_json(
                operations[i],
            )),
{
}

/// The language that an operation is run in is that of its file, if it applies to
/// that; else the first language of the project that it applies to. Without one, there
/// is none.
pub proof fn operations_run_in_a_language_of_theirs(
    of_file: Option<Language>,
    project: ProjectView,
    d: DescriptorView,
    n: int,
)
    requires
        0 <= n <= project.languages.len(),
        forall|i: int|
            0 <= i < n ==> !d.languages.contains(#[trigger] project.languages[i]),
        n < project.languages.len() ==> d.languages.contains(project.languages[n]),
    ensures
        (of_file matches Some(l) && d.languages.contains(l)) ==> language_for(of_file, project, d)
            == of_file,
        !(of_file matches Some(l) && d.languages.contains(l)) ==> language_for(of_file, project, d)
            == if n < project.languages.len() {
            Some(project.languages[n])
        } else {
            None
        },
{
    lemma_first_of_several(project.languages, d, n);
}

/// The first applicable language is the first that applies.
proof fn lemma_first_of_several(languages: Seq<Language>, d: DescriptorView, n: int)
    requires
        0 <= n <= languages.len(),
        forall|i: int| 0 <= i < n ==> !d.languages.contains(#[trigger] languages[i]),
        n < languages.len() ==> d.languages.contains(languages[n]),
    ensures
        first_applicable(languages, d) == if n < languages.len() {
            Some(languages[n])
        } else {
            None
        },
    decreases languages.len(),
{
    if n > 0 {
        let rest = languages.skip(1);
        assert(!d.languages.contains(languages[0]));
        assert forall|i: int| 0 <= i < n - 1 implies !d.languages.contains(#[trigger] rest[i]) by {
            assert(rest[i] == languages[i + 1]);
        }
        lemma_first_of_several(rest, d, n - 1);
    }
}

/// The job that a call has come to want, where it has not been refused.
pub open spec fn wanted_job<H>(at: At<H>) -> Option<JobView<H>> {
    match at.0 {
        StageView::Identify { job, .. } => Some(job),
        StageView::FindRepository { job } => Some(job),
        _ => None,
    }
}

/// A call on a registered project, for an operation of it, with a target that is
/// understood and a provider for the language, is started. It is started for what it
/// says: its project, its operation, its target as the server sees it, its own
/// parameters, its expectation, and whether it is a preview. It starts in the working
/// copy that it names, or looks for one.
pub proof fn sound_calls_are_started<H>(
    server: ServerView<H>,
    name: Seq<char>,
    args: JsonView,
    id: Seq<char>,
    at: int,
    target: TargetView,
    language: Language,
)
    requires
        args.get_text("project"@) == Some(id),
        server.projects.dom().contains(id),
        operation_for(server, name, args, server.projects[id]) == Some(at),
        ops::target_of(args, server.operations[at].target) == Ok::<TargetView, McpErrorView>(
            target,
        ),
        language_for(
            target_language(
                workspace::remapped(server.path_map, target),
                server.projects[id],
            ),
            server.projects[id],
            server.operations[at],
        ) == Some(language),
        server.languages.contains(language),
    ensures
        wanted_job(started(server, name, args)) matches Some(job) && job.project
            == server.projects[id] && job.operation == server.handles[at] && job.language == language
            && job.target == workspace::remapped(server.path_map, target) && job.params
            == ops::params_of(args) && job.expected == args.get_text("expect"@) && job.dry_run
            == ops::wants_preview(args),
        match workspace::workspace_search(
            args,
            workspace::remapped(server.path_map, target),
            server.projects[id].root,
            server.path_map,
        ) {
            WorkspaceSearchView::At(ws) => started(server, name, args).1 == (StepView::<
                H,
            >::Identify { workspace: ws, project_root: server.projects[id].root }),
            WorkspaceSearchView::Nearest(dirs) => started(server, name, args).1 == (StepView::<
                H,
            >::FindRepository { dirs }),
        },
{
}

/// A call that names no file is for the first operation of its name that applies to
/// the project. A call is for none only where there is no such operation.
pub proof fn calls_find_their_operation<H>(
    server: ServerView<H>,
    name: Seq<char>,
    args: JsonView,
    project: ProjectView,
)
    ensures
        args.get_text("file"@) is None ==> operation_for(server, name, args, project)
            == operation::resolved_at(server.operations, name, project.languages),
        operation_for(server, name, args, project) is None <==> operation::resolved_at(
            server.operations,
            name,
            project.languages,
        ) is None,
{
}

/// A call that cannot be started says what is missing: the project that it does not
/// name, the project or the operation that there is not, or the provider.
pub proof fn unsound_calls_say_what_is_missing<H>(
    server: ServerView<H>,
    name: Seq<char>,
    args: JsonView,
    id: Seq<char>,
)
    ensures
        args.get_text("project"@) is None ==> (started(server, name, args).1
            matches StepView::Refuse(McpErrorView::InvalidParams(why)) && text::contains_text(
            why,
            "project"@,
        )),
        args.get_text("project"@) == Some(id) && !server.projects.dom().contains(id) ==> started(
            server,
            name,
            args,
        ).1 == StepView::<H>::Refuse(error::answer_to(ErrorView::ProjectNotFound(id))),
        args.get_text("project"@) == Some(id) && server.projects.dom().contains(id)
            && operation::resolved_at(server.operations, name, server.projects[id].languages)
            is None ==> (started(server, name, args).1 matches StepView::Refuse(
            McpErrorView::InvalidParams(why),
        ) && text::contains_text(why, name) && text::contains_text(why, id)),
{
    reveal_strlit("missing required `project`");
    reveal_strlit("project");
    let missing = "missing required `project`"@;
    assert(missing.subrange(18, 25) =~= "project"@);
    assert(text::occurs_at(missing, "project"@, 18));
    let a = "unknown tool or operation `"@;
    let b = "` for project `"@;
    let all = a + name + b + id + "`"@;
    text::lemma_stands_between(a, name, b + id + "`"@);
    assert(all =~= a + name + (b + id + "`"@));
    text::lemma_stands_between(a + name + b, id, "`"@);
}

/// A call that lists no operations of a known project goes with any list of them.
proof fn lemma_some_listing<P, H>(server: HenkaMcp<P, H>, call: Call)
    ensures
        !(call matches Call::ListOperations { project } && server@.projects.dom().contains(
            project@,
        )) ==> lists_for(server@, Seq::empty(), call),
{
}

/// A call about a project is answered about that project, or told that it is not
/// known, with its id. Forgetting a project forgets that one and no other, and is
/// answered with it. No other call changes what is registered.
pub proof fn calls_are_answered_about_their_project<H>(
    server: ServerView<H>,
    listing: Seq<ProjectView>,
    operations: Seq<DescriptorView>,
    call: Call,
    other: Seq<char>,
)
    requires
        forall|id: Seq<char>| #[trigger]
            server.projects.dom().contains(id) ==> server.projects[id].id == id,
    ensures
        match call {
            Call::UnregisterProject { id } => {
                let after = server_after(server, call).projects;
                &&& !after.dom().contains(id@)
                &&& other != id@ ==> after.dom().contains(other) == server.projects.dom().contains(
                    other,
                ) && (after.dom().contains(other) ==> after[other] == server.projects[other])
                &&& server.projects.dom().contains(id@) ==> (reaction_to(
                    server,
                    listing,
                    operations,
                    call,
                ) matches ReactionView::Save(told) && told.get_text("id"@) == Some(id@))
                &&& !server.projects.dom().contains(id@) ==> refuses_project(
                    reaction_to(server, listing, operations, call),
                    id@,
                )
            },
            Call::ProjectStatus { id } => {
                &&& server_after(server, call) == server
                &&& server.projects.dom().contains(id@) ==> (reaction_to(
                    server,
                    listing,
                    operations,
                    call,
                ) matches ReactionView::Report { project } && project.id == id@ && project
                    == server.projects[id@])
                &&& !server.projects.dom().contains(id@) ==> refuses_project(
                    reaction_to(server, listing, operations, call),
                    id@,
                )
            },
            Call::ListOperations { project } => {
                &&& server_after(server, call) == server
                &&& server.projects.dom().contains(project@) ==> (reaction_to(
                    server,
                    listing,
                    operations,
                    call,
                ) matches ReactionView::Answer(JsonView::Array(items)) && items.len()
                    == operations.len())
                &&& !server.projects.dom().contains(project@) ==> refuses_project(
                    reaction_to(server, listing, operations, call),
                    project@,
                )
            },
            Call::ListProjects => server_after(server, call) == server && (reaction_to(
                server,
                listing,
                operations,
                call,
            ) matches ReactionView::Answer(JsonView::Array(items)) && items.len()
                == listing.len()),
            Call::RegisterProject { root, id } => server_after(server, call) == server && (
            reaction_to(server, listing, operations, call) matches ReactionView::Probe {
                root: at,
                id: chosen,
            } && chosen == text::optional(id) && at == pathmap::mapped(server.path_map, root@)),
            Call::Operation { .. } => server_after(server, call) == server && reaction_to(
                server,
                listing,
                operations,
                call,
            ) is Dispatch,
        },
{
    broadcast use json::lemma_lookup_of_pushed;

    reveal_strlit("id");
    reveal_strlit("root");
    reveal_strlit("languages");
    assert("id"@.len() == 2);
    assert("root"@.len() == 4);
    assert("languages"@.len() == 9);
    match call {
        Call::UnregisterProject { id } => lemma_error_names_project(id@),
        Call::ProjectStatus { id } => lemma_error_names_project(id@),
        Call::ListOperations { project } => lemma_error_names_project(project@),
        _ => {},
    }
}

/// Whether a call is refused for a project that is not known, and told its id.
pub open spec fn refuses_project<H>(r: ReactionView<H>, id: Seq<char>) -> bool {
    r matches ReactionView::Refuse(McpErrorView::InvalidParams(why)) && text::contains_text(why, id)
}

/// The answer for a project that is not known names the project.
proof fn lemma_error_names_project(id: Seq<char>)
    ensures
        error::answer_to(ErrorView::ProjectNotFound(id)) matches McpErrorView::InvalidParams(why)
            && text::contains_text(why, id),
{
    text::lemma_stands_between("project not found: `"@, id, "`"@);
}

/// A file in a language that the project does not have, or in none, has no say in which
/// operation a call is for, nor in which language it is run.
pub proof fn foreign_files_decide_nothing<H>(
    server: ServerView<H>,
    name: Seq<char>,
    args: JsonView,
    project: ProjectView,
    file: Seq<char>,
    target: TargetView,
    d: DescriptorView,
)
    requires
        language::path_language(file) matches Some(l) ==> !project.languages.contains(l),
    ensures
        named_file(server.path_map, args) == Some(file) ==> operation_for(
            server,
            name,
            args,
            project,
        ) == operation::resolved_at(server.operations, name, project.languages),
        target.file() == Some(file) ==> language_for(target_language(target, project), project, d)
            == first_applicable(project.languages, d),
{
}

} // verus!

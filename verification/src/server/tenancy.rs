//! The server without operations: projects are registered, forgotten, listed and
//! reported on.
use vstd::prelude::*;

use crate::error::ErrorView;
use crate::json;
use crate::json::{Json, JsonView};
use crate::path::PathBuf;
use crate::project::ProjectView;
use crate::registry;
use crate::registry::{ProjectRegistry, RootProbe};
use crate::server::catalog;
use crate::server::catalog::{
    project_value, projects_value, Tool, ToolInput, ToolInputView, ToolView,
};
use crate::server::error;
use crate::server::error::{into_mcp, McpError, McpErrorView};
use crate::server::mcp;
use crate::text;
use crate::text::{cat3, same_text};

verus! {

/// The server without operations.
#[derive(Debug)]
pub struct RefactorMcp {
    /// The projects.
    pub registry: ProjectRegistry,
}

impl View for RefactorMcp {
    type V = Map<Seq<char>, ProjectView>;

    /// The projects by id.
    open spec fn view(&self) -> Map<Seq<char>, ProjectView> {
        self.registry@
    }
}

/// A call of a tool.
#[derive(Debug)]
pub enum Request {
    /// To register a directory, under an id or under one made from its name.
    RegisterProject {
        /// The directory.
        root: String,
        /// The id.
        id: Option<String>,
    },
    /// To forget a project.
    UnregisterProject {
        /// Id of the project.
        id: String,
    },
    /// To list the projects.
    ListProjects,
    /// To report on a project.
    ProjectStatus {
        /// Id of the project.
        id: String,
    },
    /// A call of a tool that there is not.
    Other {
        /// The name that was called.
        name: String,
    },
}

/// What a call leads to.
#[derive(Debug)]
pub enum Response {
    /// Look at this directory, and register it.
    Probe {
        /// The directory.
        root: PathBuf,
        /// The id to register it under.
        id: Option<String>,
    },
    /// Save the registry, and answer.
    Save {
        /// The answer.
        answer: Json,
    },
    /// Answer.
    Answer(Json),
    /// Refuse the call.
    Refuse(McpError),
}

/// What a [`Response`] says.
pub enum ResponseView {
    Probe { root: Seq<char>, id: Option<Seq<char>> },
    Save(JsonView),
    Answer(JsonView),
    Refuse(McpErrorView),
}

impl View for Response {
    type V = ResponseView;

    open spec fn view(&self) -> ResponseView {
        match self {
            Response::Probe { root, id } => ResponseView::Probe {
                root: root@,
                id: text::optional(*id),
            },
            Response::Save { answer } => ResponseView::Save(answer@),
            Response::Answer(v) => ResponseView::Answer(v@),
            Response::Refuse(e) => ResponseView::Refuse(e@),
        }
    }
}

/// What a call leads to. `listing` lists the projects.
pub open spec fn response_to(
    projects: Map<Seq<char>, ProjectView>,
    listing: Seq<ProjectView>,
    request: Request,
) -> ResponseView {
    match request {
        Request::RegisterProject { root, id } => ResponseView::Probe {
            root: root@,
            id: text::optional(id),
        },
        Request::UnregisterProject { id } => if projects.dom().contains(id@) {
            ResponseView::Save(JsonView::Object(catalog::project_json(projects[id@])))
        } else {
            ResponseView::Refuse(error::answer_to(ErrorView::ProjectNotFound(id@)))
        },
        Request::ListProjects => ResponseView::Answer(mcp::listing_json(listing)),
        Request::ProjectStatus { id } => if projects.dom().contains(id@) {
            ResponseView::Answer(JsonView::Object(catalog::project_json(projects[id@])))
        } else {
            ResponseView::Refuse(error::answer_to(ErrorView::ProjectNotFound(id@)))
        },
        Request::Other { name } => ResponseView::Refuse(
            McpErrorView::InvalidParams("unknown tool: `"@ + name@ + "`"@),
        ),
    }
}

/// The projects once a call has been taken.
pub open spec fn projects_after(
    projects: Map<Seq<char>, ProjectView>,
    request: Request,
) -> Map<Seq<char>, ProjectView> {
    match request {
        Request::UnregisterProject { id } => projects.remove(id@),
        _ => projects,
    }
}

/// The tools.
pub open spec fn tenancy_tools() -> Seq<ToolView> {
    seq![
        ToolView {
            name: "register_project"@,
            description: "Register a local source tree as a project so it can be refactored. Detects the project's languages and persists the registration across restarts."@,
            input: ToolInputView::RegisterProject,
        },
        ToolView {
            name: "unregister_project"@,
            description: "Forget a registered project. Never deletes source."@,
            input: ToolInputView::ProjectId,
        },
        ToolView {
            name: "list_projects"@,
            description: "List all registered projects with their roots and detected languages."@,
            input: ToolInputView::NoParams,
        },
        ToolView {
            name: "project_status"@,
            description: "Report a registered project's root and detected languages."@,
            input: ToolInputView::ProjectId,
        },
    ]
}

/// The answer to a call that names a project that is not registered.
pub open spec fn not_registered(r: Response, id: Seq<char>) -> bool {
    r matches Response::Refuse(e) && e@ == error::answer_to(ErrorView::ProjectNotFound(id))
}

/// The URI of the resource that describes the workflow.
pub open spec fn workflow_uri() -> Seq<char> {
    "skill://refactor/refactoring"@
}

impl RefactorMcp {
    /// Whether the registry is in order.
    pub open spec fn wf(&self) -> bool {
        self.registry.wf()
    }

    /// A server with the given projects.
    pub fn new(registry: ProjectRegistry) -> (r: Self)
        requires
            registry.wf(),
        ensures
            r.wf(),
            r.registry == registry,
    {
        RefactorMcp { registry }
    }

    /// The tools of the server.
    pub fn tools(&self) -> (r: Vec<Tool>)
        ensures
            catalog::tool_views(r@) == tenancy_tools(),
    {
        let mut out: Vec<Tool> = Vec::new();
        out.push(
            Tool {
                name: "register_project".to_owned(),
                description: "Register a local source tree as a project so it can be refactored. Detects the project's languages and persists the registration across restarts.".to_owned(),
                input: ToolInput::RegisterProject,
            },
        );
        out.push(
            Tool {
                name: "unregister_project".to_owned(),
                description: "Forget a registered project. Never deletes source.".to_owned(),
                input: ToolInput::ProjectId,
            },
        );
        out.push(
            Tool {
                name: "list_projects".to_owned(),
                description: "List all registered projects with their roots and detected languages.".to_owned(),
                input: ToolInput::NoParams,
            },
        );
        out.push(
            Tool {
                name: "project_status".to_owned(),
                description: "Report a registered project's root and detected languages.".to_owned(),
                input: ToolInput::ProjectId,
            },
        );
        assert(catalog::tool_views(out@) =~= tenancy_tools());
        out
    }

    /// Registers a directory that has been looked at, under an id or under one made
    /// from its name, and answers with the project.
    pub fn register_project(&mut self, id: Option<String>, probe: &RootProbe) -> (r: Result<
        Json,
        McpError,
    >)
        requires
            old(self).wf(),
        ensures
            final(self).wf(),
            final(self).registry.config_file() == old(self).registry.config_file(),
            match registry::registration(old(self)@, text::optional(id), probe@) {
                Ok(p) => r matches Ok(v) && v@ == JsonView::Object(catalog::project_json(p))
                    && final(self)@ == old(self)@.insert(p.id, p),
                Err(want) => r matches Err(e) && e@ == error::answer_to(want) && final(self)@
                    == old(self)@,
            },
    {
        match self.registry.register(id, probe) {
            Ok(project) => Ok(project_value(&project)),
            Err(e) => Err(into_mcp(&e)),
        }
    }

    /// What becomes of a call.
    pub fn handle_call(&mut self, request: Request) -> (r: Response)
        requires
            old(self).wf(),
        ensures
            final(self).wf(),
            final(self).registry.config_file() == old(self).registry.config_file(),
            match request {
                Request::UnregisterProject { id } => final(self)@ == old(self)@.remove(id@),
                _ => final(self)@ == old(self)@,
            },
            match request {
                Request::RegisterProject { root, id } => r matches Response::Probe {
                    root: at,
                    id: chosen,
                } && at@ == root@ && chosen == id,
                Request::UnregisterProject { id } => if old(self)@.dom().contains(id@) {
                    r matches Response::Save { answer } && answer@ == JsonView::Object(
                        catalog::project_json(old(self)@[id@]),
                    )
                } else {
                    not_registered(r, id@)
                },
                Request::ListProjects => r matches Response::Answer(v) && v@ == mcp::listing_json(
                    old(self).registry.listing(),
                ),
                Request::ProjectStatus { id } => if old(self)@.dom().contains(id@) {
                    r matches Response::Answer(v) && v@ == JsonView::Object(
                        catalog::project_json(old(self)@[id@]),
                    )
                } else {
                    not_registered(r, id@)
                },
                Request::Other { name } => r matches Response::Refuse(e) && e@
                    == McpErrorView::InvalidParams("unknown tool: `"@ + name@ + "`"@),
            },
            final(self)@ == projects_after(old(self)@, request),
            r@ == response_to(old(self)@, old(self).registry.listing(), request),
    {
        match request {
            Request::RegisterProject { root, id } => Response::Probe {
                root: PathBuf::new(root.as_str()),
                id,
            },
            Request::UnregisterProject { id } => match self.registry.unregister(id.as_str()) {
                Ok(project) => Response::Save { answer: project_value(&project) },
                Err(e) => {
                    assert(old(self)@.remove(id@) =~= old(self)@);
                    Response::Refuse(into_mcp(&e))
                },
            },
            Request::ListProjects => {
                let listed = self.registry.list();
                proof {
                    mcp::lemma_listing_json(listed@, self.registry.listing());
                }
                Response::Answer(projects_value(listed))
            },
            Request::ProjectStatus { id } => match self.registry.get(id.as_str()) {
                Ok(project) => Response::Answer(project_value(project)),
                Err(e) => Response::Refuse(into_mcp(&e)),
            },
            Request::Other { name } => Response::Refuse(
                McpError::InvalidParams(cat3("unknown tool: `", name.as_str(), "`")),
            ),
        }
    }
}

/// Whether a URI is that of the resource that describes the workflow. Any other is
/// refused.
pub fn read_resource(uri: &str) -> (r: Result<(), McpError>)
    ensures
        r is Ok == (uri@ == workflow_uri()),
        r matches Err(e) ==> e@ == (McpErrorView::ResourceNotFound { uri: uri@ }),
{
    if same_text(uri, "skill://refactor/refactoring") {
        Ok(())
    } else {
        Err(McpError::ResourceNotFound { uri: uri.to_owned() })
    }
}

// ---------------------------------------------------------------------------
// Laws
// ---------------------------------------------------------------------------

/// Whether a call is refused, and told the name that it used.
pub open spec fn refused_by_name(r: ResponseView, name: Seq<char>) -> bool {
    r matches ResponseView::Refuse(McpErrorView::InvalidParams(why)) && text::contains_text(
        why,
        name,
    )
}

/// A call about a project is answered about that project, or told that it is not
/// known, with its id. Forgetting a project forgets that one and no other, and is
/// answered with it. No other call changes what is registered. A tool that there is
/// not is refused by its name.
pub proof fn requests_are_answered_about_their_project(
    projects: Map<Seq<char>, ProjectView>,
    listing: Seq<ProjectView>,
    request: Request,
    other: Seq<char>,
)
    requires
        forall|id: Seq<char>| #[trigger]
            projects.dom().contains(id) ==> projects[id].id == id,
    ensures
        match request {
            Request::RegisterProject { root, id } => projects_after(projects, request) == projects
                && response_to(projects, listing, request) == (ResponseView::Probe {
                root: root@,
                id: text::optional(id),
            }),
            Request::UnregisterProject { id } => {
                let after = projects_after(projects, request);
                &&& !after.dom().contains(id@)
                &&& other != id@ ==> after.dom().contains(other) == projects.dom().contains(other)
                    && (after.dom().contains(other) ==> after[other] == projects[other])
                &&& projects.dom().contains(id@) ==> (response_to(projects, listing, request)
                    matches ResponseView::Save(told) && told.get_text("id"@) == Some(id@))
                &&& !projects.dom().contains(id@) ==> refused_by_name(
                    response_to(projects, listing, request),
                    id@,
                )
            },
            Request::ListProjects => projects_after(projects, request) == projects && (response_to(
                projects,
                listing,
                request,
            ) matches ResponseView::Answer(JsonView::Array(items)) && items.len()
                == listing.len()),
            Request::ProjectStatus { id } => {
                &&& projects_after(projects, request) == projects
                &&& projects.dom().contains(id@) ==> (response_to(projects, listing, request)
                    matches ResponseView::Answer(told) && told.get_text("id"@) == Some(id@)
                    && told.get_text("root"@) == Some(projects[id@].root))
                &&& !projects.dom().contains(id@) ==> refused_by_name(
                    response_to(projects, listing, request),
                    id@,
                )
            },
            Request::Other { name } => projects_after(projects, request) == projects
                && refused_by_name(response_to(projects, listing, request), name@),
        },
{
    broadcast use json::lemma_lookup_of_pushed;

    reveal_strlit("id");
    reveal_strlit("root");
    reveal_strlit("languages");
    assert("id"@.len() == 2);
    assert("root"@.len() == 4);
    assert("languages"@.len() == 9);
    match request {
        Request::UnregisterProject { id } => text::lemma_stands_between(
            "project not found: `"@,
            id@,
            "`"@,
        ),
        Request::ProjectStatus { id } => text::lemma_stands_between(
            "project not found: `"@,
            id@,
            "`"@,
        ),
        Request::Other { name } => text::lemma_stands_between("unknown tool: `"@, name@, "`"@),
        _ => {},
    }
}

/// The tools are those for projects that every server has: each has the name of one,
/// and takes what that one takes.
pub proof fn tools_are_those_for_projects(i: int, j: int)
    requires
        0 <= i < tenancy_tools().len(),
        0 <= j < tenancy_tools().len(),
    ensures
        i != j ==> tenancy_tools()[i].name != tenancy_tools()[j].name,
        exists|k: int|
            0 <= k < catalog::project_tools().len() && (#[trigger] catalog::project_tools()[k]).name
                == tenancy_tools()[i].name && catalog::project_tools()[k].input
                == tenancy_tools()[i].input,
{
    reveal_strlit("register_project");
    reveal_strlit("unregister_project");
    reveal_strlit("list_projects");
    reveal_strlit("project_status");
    assert("register_project"@.len() == 16);
    assert("unregister_project"@.len() == 18);
    assert("list_projects"@.len() == 13);
    assert("project_status"@.len() == 14);
    assert(catalog::project_tools()[i].name == tenancy_tools()[i].name);
}

} // verus!

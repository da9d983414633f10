use henka::json::Json;
use henka::language::Language;
use henka::path::PathBuf;
use henka::registry::{app_config_path, ProjectRegistry, RootProbe};
use henka::server::error::McpError;
use henka::server::tenancy::{read_resource, RefactorMcp, Request, Response};

fn probe(root: &str, languages: Vec<Language>) -> RootProbe {
    RootProbe {
        path: PathBuf::new(root),
        exists: true,
        is_dir: true,
        canonical: Some(PathBuf::new(root)),
        languages,
    }
}

fn server() -> RefactorMcp {
    RefactorMcp::new(ProjectRegistry::empty(PathBuf::new("/cfg/projects.toml")))
}

fn refusal(response: Response) -> String {
    match response {
        Response::Refuse(McpError::InvalidParams(message)) => message,
        other => panic!("unexpected {other:?}"),
    }
}

fn id_of(value: &Json) -> Option<&str> {
    value.get_str("id")
}

#[test]
fn tenancy_tools_are_listed() {
    let tools = server().tools();
    let names: Vec<&str> = tools.iter().map(|t| t.name.as_str()).collect();
    assert_eq!(
        names,
        vec!["register_project", "unregister_project", "list_projects", "project_status"]
    );
    assert_eq!(
        tools[3].description,
        "Report a registered project's root and detected languages."
    );
}

#[test]
fn projects_are_registered_reported_and_forgotten() {
    let mut mcp = server();
    let call = Request::RegisterProject { root: "/src/svc".to_string(), id: None };
    let (root, id) = match mcp.handle_call(call) {
        Response::Probe { root, id } => (root, id),
        other => panic!("unexpected {other:?}"),
    };
    assert_eq!(root, PathBuf::new("/src/svc"));
    let answer = mcp.register_project(id, &probe("/src/svc", vec![Language::Java])).unwrap();
    assert_eq!(id_of(&answer), Some("svc"));
    assert_eq!(answer.get_str("root"), Some("/src/svc"));

    let status = Request::ProjectStatus { id: "svc".to_string() };
    match mcp.handle_call(status) {
        Response::Answer(v) => {
            assert_eq!(id_of(&v), Some("svc"));
            assert!(v.get("vcs").is_none());
        }
        other => panic!("unexpected {other:?}"),
    }
    match mcp.handle_call(Request::ListProjects) {
        Response::Answer(v) => assert_eq!(v.as_array().unwrap().len(), 1),
        other => panic!("unexpected {other:?}"),
    }
    match mcp.handle_call(Request::UnregisterProject { id: "svc".to_string() }) {
        Response::Save { answer } => assert_eq!(id_of(&answer), Some("svc")),
        other => panic!("unexpected {other:?}"),
    }
    assert_eq!(
        refusal(mcp.handle_call(Request::ProjectStatus { id: "svc".to_string() })),
        "project not found: `svc`"
    );
    assert_eq!(
        refusal(mcp.handle_call(Request::UnregisterProject { id: "svc".to_string() })),
        "project not found: `svc`"
    );
}

#[test]
fn registrations_and_names_are_refused() {
    let mut mcp = server();
    match mcp.register_project(Some("svc".to_string()), &probe("/src/svc", vec![])) {
        Err(McpError::InvalidParams(message)) => {
            assert_eq!(message, "no supported language detected under /src/svc")
        }
        other => panic!("unexpected {other:?}"),
    }
    assert!(mcp.registry.is_empty());
    assert_eq!(
        refusal(mcp.handle_call(Request::Other { name: "rename".to_string() })),
        "unknown tool: `rename`"
    );
}

#[test]
fn workflows_have_one_place() {
    assert!(read_resource("skill://refactor/refactoring").is_ok());
    match read_resource("skill://henka/refactoring") {
        Err(McpError::ResourceNotFound { uri }) => assert_eq!(uri, "skill://henka/refactoring"),
        other => panic!("unexpected {other:?}"),
    }
    assert_eq!(
        app_config_path("refactor-mcp", &None, &Some("/home/me".to_string())),
        PathBuf::new("/home/me/.config/refactor-mcp/projects.toml")
    );
}

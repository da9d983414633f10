use henka::edit::{
    FileEdit, FileStep, Position, PositionEncoding, Range, TextEdit, WorkspaceEdit,
};
use henka::error::Error;
use henka::json::{Json, Number};
use henka::language::Language;
use henka::locate::Probed;
use henka::operation::{
    OperationDescriptor, OperationKind, OperationOutcome, Registered, Target, TargetKind,
};
use henka::path::PathBuf;
use henka::provider::{LanguageProvider, ProviderRegistry, RequestGuard};
use henka::registry::{ConfigSource, ProjectRegistry, RootProbe};
use henka::server::catalog::{
    mount_candidates, project_status, refuse_registration, route, suggest_mounts, Backend,
    Readiness, Route,
};
use henka::server::dispatch::{Event, Stage, Step};
use henka::server::error::{into_mcp, read_resource, McpError};
use henka::server::hosts::extra_hosts;
use henka::json::wire::MAX_DEPTH;
use henka::server::mcp::{ok_json, Call, HenkaMcp, Reaction};
use henka::server::ops::{
    build_input_schema, dry_run, expect, operation_params, operation_tool, parse_target,
    project_id, workspace,
};
use henka::server::pathmap::PathMap;
use henka::server::workspace::{
    ancestor_dirs, ensure_same_repo, position_label, reject_edits_outside, validate_expectation,
    RepoFacts,
};
use henka::vcs::{Revision, Vcs};

fn path(text: &str) -> PathBuf {
    PathBuf::new(text)
}

fn convert(value: &serde_json::Value) -> Json {
    match value {
        serde_json::Value::Null => Json::Null,
        serde_json::Value::Bool(b) => Json::Bool(*b),
        serde_json::Value::Number(n) => Json::Number(match (n.as_u64(), n.as_i64()) {
            (Some(u), _) => Number::Unsigned(u),
            (None, Some(i)) => Number::Negative(i),
            _ => Number::Other(n.to_string()),
        }),
        serde_json::Value::String(s) => Json::Text(s.clone()),
        serde_json::Value::Array(items) => Json::Array(items.iter().map(convert).collect()),
        serde_json::Value::Object(members) => {
            Json::Object(members.iter().map(|(k, v)| (k.clone(), convert(v))).collect())
        }
    }
}

fn json(text: &str) -> Json {
    convert(&serde_json::from_str(text).unwrap())
}

fn sorted(value: &Json) -> Json {
    match value {
        Json::Object(members) => {
            let mut out: Vec<(String, Json)> =
                members.iter().map(|(k, v)| (k.clone(), sorted(v))).collect();
            out.sort_by(|a, b| a.0.cmp(&b.0));
            Json::Object(out)
        }
        Json::Array(items) => Json::Array(items.iter().map(sorted).collect()),
        other => other.copy(),
    }
}

/// The operations of the server under test.
#[derive(Debug, Clone, Copy, PartialEq, Eq)]
enum Op {
    Insert,
    Echo,
}

fn descriptor(op: Op) -> OperationDescriptor {
    match op {
        Op::Insert => OperationDescriptor {
            id: "insert-text".to_string(),
            title: "Insert text".to_string(),
            description: "Insert text at a position".to_string(),
            kind: OperationKind::Edit,
            languages: vec![Language::Java],
            target: TargetKind::Position,
            params_schema: json(
                "{\"type\":\"object\",\"properties\":{\"text\":{\"type\":\"string\"}},\
                 \"required\":[\"text\"]}",
            ),
        },
        Op::Echo => OperationDescriptor {
            id: "echo".to_string(),
            title: "Echo".to_string(),
            description: "Echo the target".to_string(),
            kind: OperationKind::Query,
            languages: vec![Language::Java],
            target: TargetKind::Position,
            params_schema: json("{\"type\":\"object\",\"properties\":{}}"),
        },
    }
}

fn run(op: Op, target: &Target, params: &Json) -> Event {
    let (file, position) = match target {
        Target::Position { file, position } => (file.clone(), *position),
        _ => return Event::Failed(Error::InvalidTarget("expected a position".to_string())),
    };
    Event::Outcome(match op {
        Op::Insert => OperationOutcome::Edit(WorkspaceEdit {
            encoding: PositionEncoding::Utf16,
            files: vec![FileEdit {
                path: file,
                edits: vec![TextEdit {
                    range: Range::new(position, position),
                    new_text: params.get_str("text").unwrap_or_default().to_string(),
                }],
            }],
            file_ops: Vec::new(),
        }),
        Op::Echo => OperationOutcome::Query(json(&format!("{{\"line\":{}}}", position.line))),
    })
}

/// A server with a Java project at `/tmp/proj` that holds `Main.java`.
struct World {
    mcp: HenkaMcp<(), Op>,
    main: String,
    session_root: Option<PathBuf>,
    trace: Vec<String>,
}

fn java_probe(root: &str) -> RootProbe {
    RootProbe {
        path: path(root),
        exists: true,
        is_dir: true,
        canonical: Some(path(root)),
        languages: vec![Language::Java],
    }
}

fn world() -> World {
    let mut registry =
        ProjectRegistry::load(path("/tmp/projects.toml"), ConfigSource::Missing).unwrap();
    registry.register(Some("p".to_string()), &java_probe("/tmp/proj")).unwrap();
    let mut providers = ProviderRegistry::new();
    providers.register(LanguageProvider {
        language: Language::Java,
        operations: vec![
            Registered { descriptor: descriptor(Op::Insert), operation: Op::Insert },
            Registered { descriptor: descriptor(Op::Echo), operation: Op::Echo },
        ],
        sessions: (),
    });
    World {
        mcp: HenkaMcp::new(registry, providers, PathMap::parse("")),
        main: "hello\n".to_string(),
        session_root: None,
        trace: Vec::new(),
    }
}

impl World {
    /// Does what a step asks for.
    fn perform(&mut self, step: &Step<Op>) -> Event {
        match step {
            Step::FindRepository { dirs } => Event::Probed(
                dirs.iter().map(|d| Probed { path: d.clone(), present: false }).collect(),
            ),
            Step::Identify { .. } => Event::Repositories(RepoFacts {
                workspace: None,
                project: None,
                workspace_canonical: None,
                project_canonical: None,
            }),
            Step::ReadTarget { file } => Event::Content(if *file == path("/tmp/proj/Main.java") {
                Ok(self.main.clone())
            } else {
                Err("no such file".to_string())
            }),
            Step::DetectRevision { .. } => Event::Revision(None),
            Step::OpenSession { .. } => Event::Session { root: self.session_root.clone() },
            Step::Overlay { .. } => Event::Done,
            Step::Run { operation, target, params } => run(*operation, target, params),
            Step::Restore => Event::Done,
            Step::ReadSources { paths } => {
                Event::Sources(paths.iter().map(|_| Ok(self.main.clone())).collect())
            }
            Step::Perform { steps } => {
                for step in steps {
                    if let FileStep::Write { text, .. } = step {
                        self.main = text.clone();
                    }
                }
                Event::Done
            }
            Step::Sync { .. } => Event::Done,
            Step::Answer(_) | Step::Refuse(_) => unreachable!("the call is over"),
        }
    }

    /// Runs a call of an operation to its end.
    fn call(&mut self, name: &str, args: &str) -> Result<Json, McpError> {
        let call = Call::Operation { name: name.to_string(), args: json(args) };
        let (mut stage, mut step): (Stage<Op>, Step<Op>) = match self.mcp.handle_call(call) {
            Reaction::Dispatch(stage, step) => (stage, step),
            other => panic!("unexpected {other:?}"),
        };
        loop {
            let label = format!("{step:?}");
            let end = label.find([' ', '(']).unwrap_or(label.len());
            self.trace.push(label[..end].to_string());
            match step {
                Step::Answer(value) => return Ok(value),
                Step::Refuse(e) => return Err(e),
                other => {
                    let event = self.perform(&other);
                    let after = stage.next(event);
                    stage = after.0;
                    step = after.1;
                }
            }
        }
    }
}

fn message(e: &McpError) -> String {
    match e {
        McpError::InvalidParams(s) | McpError::Internal(s) => s.clone(),
        McpError::ResourceNotFound { uri } => uri.clone(),
    }
}

const AT_START: &str = "\"project\":\"p\",\"file\":\"Main.java\",\"line\":0,\"character\":0";

fn at_start(more: &str) -> String {
    format!("{{{AT_START},{more}}}")
}

#[test]
fn catalog_lists_operation_tools() {
    let names: Vec<String> = world().mcp.tools().iter().map(|t| t.name.clone()).collect();
    assert!(names.contains(&"insert-text".to_string()));
    assert!(names.contains(&"echo".to_string()));
    assert!(names.contains(&"list_operations".to_string()));
    assert_eq!(names.len(), 7);
}

#[test]
fn edit_previews_then_applies() {
    let mut world = world();
    let preview = world.call("insert-text", &at_start("\"text\":\"X\"")).unwrap();
    assert_eq!(preview.get("dry_run"), Some(&Json::Bool(true)));
    assert_eq!(world.main, "hello\n");
    assert!(!world.trace.contains(&"Perform".to_string()));

    let applied =
        world.call("insert-text", &at_start("\"text\":\"X\",\"dry_run\":false")).unwrap();
    assert_eq!(
        sorted(&applied),
        json(
            "{\"applied\":{\"changed_files\":[\"Main.java\"]},\"dry_run\":false,\"files\":[{\
             \"diff\":\"--- a/Main.java\\n+++ b/Main.java\\n@@ -1 +1 @@\\n-hello\\n+Xhello\\n\",\
             \"path\":\"Main.java\"}]}"
        )
    );
    assert_eq!(applied.get("files"), preview.get("files"));
    assert_eq!(world.main, "Xhello\n");
}

#[test]
fn a_call_goes_the_way_of_its_preview() {
    let mut previewing = world();
    previewing.session_root = Some(path("/tmp/proj"));
    let shown = previewing.call("insert-text", &at_start("\"text\":\"X\"")).unwrap();
    let mut writing = world();
    writing.session_root = Some(path("/tmp/proj"));
    let told = writing
        .call("insert-text", &at_start("\"text\":\"X\",\"dry_run\":false"))
        .unwrap();
    let common = previewing.trace.len() - 1;
    assert_eq!(previewing.trace[..common], writing.trace[..common]);
    assert_eq!(writing.trace[common..], ["Perform", "Sync", "Answer"]);
    assert_eq!(shown.get("files"), told.get("files"));
    assert_eq!(writing.main, "Xhello\n");
    assert_eq!(previewing.main, "hello\n");

    let wrong = "\"expect\":\"other\",\"text\":\"X\"";
    let refused = previewing.call("insert-text", &at_start(wrong)).unwrap_err();
    let writing = previewing
        .call("insert-text", &at_start(&format!("{wrong},\"dry_run\":false")))
        .unwrap_err();
    assert_eq!(message(&refused), message(&writing));
    assert_eq!(previewing.main, "hello\n");
}

/// Follows a call up to the operation that it runs, and says in which language.
fn routed(mcp: &mut HenkaMcp<(), Op>, name: &str, args: &str) -> (Language, Op) {
    let call = Call::Operation { name: name.to_string(), args: json(args) };
    let (mut stage, mut step): (Stage<Op>, Step<Op>) = match mcp.handle_call(call) {
        Reaction::Dispatch(stage, step) => (stage, step),
        other => panic!("unexpected {other:?}"),
    };
    let mut spoken = None;
    loop {
        let event = match step {
            Step::Identify { .. } => Event::Repositories(RepoFacts {
                workspace: None,
                project: None,
                workspace_canonical: None,
                project_canonical: None,
            }),
            Step::OpenSession { language, .. } => {
                spoken = Some(language);
                Event::Session { root: Some(path("/tmp/both")) }
            }
            Step::Run { operation, .. } => return (spoken.unwrap(), operation),
            other => panic!("unexpected {other:?}"),
        };
        let after = stage.next(event);
        stage = after.0;
        step = after.1;
    }
}

#[test]
fn calls_go_to_the_language_of_their_file() {
    let mut registry =
        ProjectRegistry::load(path("/tmp/projects.toml"), ConfigSource::Missing).unwrap();
    let mut probe = java_probe("/tmp/both");
    probe.languages = vec![Language::Java, Language::Rust];
    registry.register(Some("both".to_string()), &probe).unwrap();
    let rename = |language: Language| {
        let mut d = descriptor(Op::Echo);
        d.id = "rename".to_string();
        d.languages = vec![language];
        d
    };
    let scan = |language: Language| {
        let mut d = rename(language);
        d.id = "scan".to_string();
        d.target = TargetKind::Project;
        d
    };
    let mut only_java = descriptor(Op::Echo);
    only_java.id = "organize".to_string();
    let mut providers = ProviderRegistry::new();
    providers.register(LanguageProvider {
        language: Language::Java,
        operations: vec![
            Registered { descriptor: rename(Language::Java), operation: Op::Echo },
            Registered { descriptor: only_java, operation: Op::Echo },
            Registered { descriptor: scan(Language::Java), operation: Op::Echo },
        ],
        sessions: (),
    });
    providers.register(LanguageProvider {
        language: Language::Rust,
        operations: vec![
            Registered { descriptor: rename(Language::Rust), operation: Op::Insert },
            Registered { descriptor: scan(Language::Rust), operation: Op::Insert },
        ],
        sessions: (),
    });
    let mut mcp = HenkaMcp::new(registry, providers, PathMap::parse(""));
    let at = |file: &str| {
        format!("{{\"project\":\"both\",\"file\":\"{file}\",\"line\":0,\"character\":0}}")
    };
    assert_eq!(routed(&mut mcp, "rename", &at("src/lib.rs")), (Language::Rust, Op::Insert));
    assert_eq!(routed(&mut mcp, "rename", &at("A.java")), (Language::Java, Op::Echo));
    assert_eq!(routed(&mut mcp, "rename", &at("notes.txt")), (Language::Java, Op::Echo));
    assert_eq!(routed(&mut mcp, "organize", &at("src/lib.rs")), (Language::Java, Op::Echo));
    assert_eq!(routed(&mut mcp, "scan", &at("src/lib.rs")), (Language::Java, Op::Echo));
    assert_eq!(routed(&mut mcp, "scan", "{\"project\":\"both\"}"), (Language::Java, Op::Echo));
}

#[test]
fn answers_are_told_as_indented_text() {
    let answer = Json::Object(vec![
        ("b".to_string(), Json::Array(vec![Json::unsigned(1)])),
        ("a".to_string(), Json::Bool(true)),
    ]);
    let told = ok_json(&answer).unwrap();
    assert_eq!(told, "{\n  \"a\": true,\n  \"b\": [\n    1\n  ]\n}");
    assert_eq!(json(&told), sorted(&answer));
    let no_number = Json::Number(Number::Other("seven".to_string()));
    assert!(matches!(ok_json(&no_number), Err(McpError::Internal(_))));
    let mut deep = Json::Null;
    for _ in 0..MAX_DEPTH {
        deep = Json::Array(vec![deep]);
    }
    assert_eq!(json(&ok_json(&deep).unwrap()), deep);
}

#[test]
fn query_runs_without_dry_run() {
    let mut world = world();
    let res = world
        .call("echo", "{\"project\":\"p\",\"file\":\"Main.java\",\"line\":3,\"character\":0}")
        .unwrap();
    assert_eq!(res, json("{\"line\":3}"));
    assert_eq!(
        world.trace,
        vec!["Identify", "OpenSession", "Overlay", "Run", "Restore", "Answer"]
    );
}

#[test]
fn workspace_is_stripped_from_operation_params() {
    let params = operation_params(&json(
        "{\"project\":\"p\",\"workspace\":\"/some/wt\",\"file\":\"A.java\",\"text\":\"x\"}",
    ));
    assert!(params.get("workspace").is_none());
    assert_eq!(params.get_str("text"), Some("x"));
}

#[test]
fn rejects_workspace_outside_project_repo() {
    let mut world = world();
    let err = world
        .call("insert-text", &at_start("\"workspace\":\"/tmp/foreign\",\"text\":\"X\""))
        .unwrap_err();
    assert!(message(&err).contains("not a working copy"), "got: {}", message(&err));
    assert_eq!(world.trace, vec!["Identify", "Refuse"]);
}

#[test]
fn applies_edit_to_named_workspace() {
    let mut world = world();
    world
        .call(
            "insert-text",
            &at_start("\"workspace\":\"/tmp/proj\",\"text\":\"X\",\"dry_run\":false"),
        )
        .unwrap();
    assert_eq!(world.main, "Xhello\n");
}

#[test]
fn expect_guard_blocks_mismatched_coordinate() {
    let mut world = world();
    world.call("insert-text", &at_start("\"expect\":\"hello\",\"text\":\"X\"")).unwrap();
    let err = world
        .call("insert-text", &at_start("\"expect\":\"goodbye\",\"text\":\"X\""))
        .unwrap_err();
    let text = message(&err);
    assert!(
        text.contains("target validation failed")
            && text.contains("`goodbye`")
            && text.contains("`hello`"),
        "got: {text}"
    );
}

#[test]
fn project_status_reports_vcs_state() {
    let mut world = world();
    let project = match world.mcp.handle_call(Call::ProjectStatus { id: "p".to_string() }) {
        Reaction::Report { project } => project,
        other => panic!("unexpected {other:?}"),
    };
    let revision =
        Some(Revision { vcs: Vcs::Git, id: "abc".to_string(), branch: Some("main".to_string()) });
    let value = project_status(&project, &revision, &Some(path("/tmp/proj/.git")), false, &vec![]);
    let vcs = value.get("vcs").expect("vcs field present");
    assert_eq!(vcs.get_str("vcs"), Some("git"));
    assert!(vcs.get_str("revision").is_some());
    assert_eq!(vcs.get("dirty"), Some(&Json::Bool(false)));
    assert_eq!(value.get_str("id"), Some("p"));
    let bare = project_status(&project, &None, &None, true, &vec![]);
    assert_eq!(
        sorted(&bare),
        json(
            "{\"backends\":{},\"id\":\"p\",\"languages\":[\"java\"],\"root\":\"/tmp/proj\",\
             \"vcs\":null}"
        )
    );
}

#[test]
fn project_status_reports_readiness() {
    let world = world();
    let mut project = world.mcp.registry.get("p").unwrap().copy();
    project.languages = vec![Language::Java, Language::Rust];
    let cold = world.mcp.backends(&project, &vec![]);
    assert_eq!(
        cold,
        vec![
            Backend { language: Language::Java, readiness: Readiness::Warming },
            Backend { language: Language::Rust, readiness: Readiness::Unavailable },
        ]
    );
    let warm = world.mcp.backends(&project, &vec![Language::Rust, Language::Java]);
    assert_eq!(warm[0].readiness, Readiness::Ready);
    assert_eq!(warm[1].readiness, Readiness::Unavailable);
    let told = |backends: &Vec<Backend>| {
        sorted(project_status(&project, &None, &None, false, backends).get("backends").unwrap())
    };
    assert_eq!(
        told(&cold),
        json(
            "{\"java\":{\"message\":null,\"state\":\"warming\"},\"rust\":{\"message\":\
             \"no provider registered for `rust`\",\"state\":\"unavailable\"}}"
        )
    );
    assert_eq!(
        told(&warm[..1].to_vec()),
        json("{\"java\":{\"message\":null,\"state\":\"ready\"}}")
    );
}

#[test]
fn register_project_suggests_matching_mount() {
    let mut world = world();
    let missing = path("/no/such/place/wanted");
    let mut probe = java_probe("/no/such/place/wanted");
    probe.exists = false;
    let err = world.mcp.register_project(Some("w".to_string()), &probe).unwrap_err();
    let candidates = mount_candidates(&missing, world.mcp.registry.list(), true);
    assert_eq!(candidates, vec![path("/tmp/wanted"), path("/workspaces/wanted")]);
    let places: Vec<Probed> = candidates
        .into_iter()
        .map(|p| Probed { present: p == path("/tmp/wanted"), path: p })
        .collect();
    let err = refuse_registration(&err, &suggest_mounts(&missing, &places));
    let text = message(&err);
    assert!(text.contains("does not exist inside Henka"), "got: {text}");
    assert!(text.contains("`/tmp/wanted`"), "got: {text}");
    assert!(text.contains("HENKA_PATH_MAP"), "got: {text}");
}

#[test]
fn register_project_translates_host_path() {
    let mut world = world();
    world.mcp.path_map = PathMap::parse("/virtual/host=/tmp/container");
    let call = Call::RegisterProject {
        root: "/virtual/host/svc".to_string(),
        id: Some("svc".to_string()),
    };
    match world.mcp.handle_call(call) {
        Reaction::Probe { root, id } => {
            assert_eq!(root, path("/tmp/container/svc"));
            world.mcp.register_project(id, &java_probe(root.as_str())).unwrap();
        }
        other => panic!("unexpected {other:?}"),
    }
    assert_eq!(world.mcp.registry.get("svc").unwrap().root, path("/tmp/container/svc"));
}

#[test]
fn unknown_operation_is_rejected() {
    let err = world().call("nonexistent", "{\"project\":\"p\"}").unwrap_err();
    assert!(message(&err).contains("unknown tool or operation"));
}

#[test]
fn calls_are_refused_for_their_arguments() {
    let mut world = world();
    let refusal = |world: &mut World, name: &str, args: &str| {
        message(&world.call(name, args).unwrap_err())
    };
    assert_eq!(refusal(&mut world, "echo", "{}"), "missing required `project`");
    assert_eq!(refusal(&mut world, "echo", "{\"project\":\"q\"}"), "project not found: `q`");
    assert_eq!(refusal(&mut world, "echo", "{\"project\":\"p\"}"), "missing or non-string `file`");
    assert_eq!(
        refusal(
            &mut world,
            "echo",
            "{\"project\":\"p\",\"file\":\"A\",\"line\":-1,\"character\":0}"
        ),
        "missing or invalid `line` (expected a non-negative integer)"
    );
    assert_eq!(
        refusal(
            &mut world,
            "echo",
            "{\"project\":\"p\",\"file\":\"A\",\"line\":1,\"character\":4294967296}"
        ),
        "missing or invalid `character` (expected a non-negative integer)"
    );
}

#[test]
fn sessions_hear_of_changes_to_their_own_checkout() {
    let mut world = world();
    world.session_root = Some(path("/tmp/proj"));
    world.call("insert-text", &at_start("\"text\":\"X\",\"dry_run\":false")).unwrap();
    assert_eq!(
        world.trace,
        vec![
            "Identify",
            "OpenSession",
            "Run",
            "Restore",
            "ReadSources",
            "Perform",
            "Sync",
            "Answer"
        ]
    );
}

#[test]
fn edits_are_moved_to_the_working_copy() {
    let mut world = world();
    world.session_root = Some(path("/srv/base"));
    let err = world
        .call(
            "insert-text",
            "{\"project\":\"p\",\"workspace\":\"/tmp/proj\",\"file\":\"/elsewhere/A.java\",\
             \"line\":0,\"character\":0,\"text\":\"X\",\"dry_run\":false}",
        )
        .unwrap_err();
    assert_eq!(message(&err), "refactoring would edit files outside the workspace");
    assert_eq!(world.main, "hello\n");
    world
        .call(
            "insert-text",
            "{\"project\":\"p\",\"workspace\":\"/tmp/proj\",\"file\":\"/srv/base/Main.java\",\
             \"line\":0,\"character\":0,\"text\":\"X\",\"dry_run\":false}",
        )
        .unwrap();
    assert_eq!(world.main, "Xhello\n");
}

#[test]
fn failed_operations_are_restored() {
    let mut world = world();
    let call = Call::Operation { name: "echo".to_string(), args: json(&at_start("\"x\":1")) };
    let (stage, _) = match world.mcp.handle_call(call) {
        Reaction::Dispatch(stage, step) => (stage, step),
        other => panic!("unexpected {other:?}"),
    };
    let facts = RepoFacts {
        workspace: Some(path("/r/.git")),
        project: Some(path("/r/.git/")),
        workspace_canonical: None,
        project_canonical: None,
    };
    let (stage, _) = stage.next(Event::Repositories(facts));
    let (stage, _) = stage.next(Event::Session { root: None });
    let (stage, step) = stage.next(Event::Done);
    assert!(matches!(step, Step::Run { .. }));
    let (stage, step) = stage.next(Event::Failed(Error::Backend("boom".to_string())));
    assert!(matches!(step, Step::Restore));
    let (_, step) = stage.next(Event::Done);
    match step {
        Step::Refuse(McpError::Internal(s)) => assert_eq!(s, "language backend error: boom"),
        other => panic!("unexpected {other:?}"),
    }
}

#[test]
fn working_copies_are_found_around_absolute_files() {
    let mut world = world();
    let args = "{\"project\":\"p\",\"file\":\"/tmp/wt/src/A.java\",\"line\":0,\"character\":0}";
    let call = Call::Operation { name: "echo".to_string(), args: json(args) };
    let (stage, dirs) = match world.mcp.handle_call(call) {
        Reaction::Dispatch(stage, Step::FindRepository { dirs }) => (stage, dirs),
        other => panic!("unexpected {other:?}"),
    };
    assert_eq!(dirs, vec![path("/tmp/wt/src"), path("/tmp/wt"), path("/tmp"), path("/")]);
    assert_eq!(ancestor_dirs(&path("a/b")), vec![path("a"), path("")]);
    let places =
        dirs.into_iter().map(|d| Probed { present: d == path("/tmp/wt"), path: d }).collect();
    match stage.next(Event::Probed(places)).1 {
        Step::Identify { workspace, project_root } => {
            assert_eq!(workspace, path("/tmp/wt"));
            assert_eq!(project_root, path("/tmp/proj"));
        }
        other => panic!("unexpected {other:?}"),
    }
}

#[test]
fn tools_for_projects_are_routed() {
    assert_eq!(route("register_project"), Route::RegisterProject);
    assert_eq!(route("list_operations"), Route::ListOperations);
    assert_eq!(route("rename"), Route::Operation);
    let mut world = world();
    match world.mcp.handle_call(Call::ListProjects) {
        Reaction::Answer(v) => assert_eq!(
            sorted(&v),
            json("[{\"id\":\"p\",\"languages\":[\"java\"],\"root\":\"/tmp/proj\"}]")
        ),
        other => panic!("unexpected {other:?}"),
    }
    match world.mcp.handle_call(Call::ListOperations { project: "p".to_string() }) {
        Reaction::Answer(v) => {
            let ids: Vec<&str> =
                v.as_array().unwrap().iter().map(|o| o.get_str("id").unwrap()).collect();
            assert_eq!(ids, vec!["echo", "insert-text"]);
            assert_eq!(v.as_array().unwrap()[0].get_str("kind"), Some("query"));
            assert_eq!(v.as_array().unwrap()[0].get_str("target"), Some("position"));
        }
        other => panic!("unexpected {other:?}"),
    }
    assert!(matches!(
        world.mcp.handle_call(Call::UnregisterProject { id: "p".to_string() }),
        Reaction::Save { .. }
    ));
    assert!(matches!(
        world.mcp.handle_call(Call::UnregisterProject { id: "p".to_string() }),
        Reaction::Refuse(McpError::InvalidParams(_))
    ));
}

#[test]
fn schemas_join_envelope_and_parameters() {
    let schema = build_input_schema(&descriptor(Op::Insert));
    let fields = schema.get("properties").unwrap();
    for key in ["project", "workspace", "file", "line", "character", "text", "dry_run"] {
        assert!(fields.get(key).is_some(), "{key}");
    }
    assert_eq!(
        schema.get("required"),
        Some(&json("[\"project\",\"file\",\"line\",\"character\",\"text\"]"))
    );
    assert_eq!(
        sorted(fields.get("line").unwrap()),
        json("{\"description\":\"Zero-based target line.\",\"minimum\":0,\"type\":\"integer\"}")
    );
    let query = operation_tool(&descriptor(Op::Echo));
    assert_eq!(query.description, "Echo the target (read-only query).");
    assert!(query.input_schema.get("properties").unwrap().get("dry_run").is_none());
}

#[test]
fn arguments_are_read() {
    let args = json(
        "{\"project\":\"p\",\"workspace\":\"\",\"dry_run\":\"no\",\"expect\":\"x\",\"file\":\"f\",\
         \"start_line\":1,\"start_character\":2,\"end_line\":3,\"end_character\":4}",
    );
    assert_eq!(project_id(&args).unwrap(), "p");
    assert_eq!(workspace(&args), None);
    assert!(dry_run(&args));
    assert!(!dry_run(&json("{\"dry_run\":false}")));
    assert_eq!(expect(&args).as_deref(), Some("x"));
    let target = parse_target(&args, TargetKind::Selection).unwrap();
    assert_eq!(position_label(&target), ":1:2-3:4");
    assert_eq!(
        target,
        Target::Selection {
            file: path("f"),
            range: Range::new(Position::new(1, 2), Position::new(3, 4)),
        }
    );
    assert_eq!(parse_target(&args, TargetKind::Project).unwrap(), Target::Project);
    assert_eq!(
        parse_target(&args, TargetKind::File).unwrap(),
        Target::File { file: path("f") }
    );
}

#[test]
fn expectations_are_checked() {
    let target = Target::Position { file: path("A.java"), position: Position::new(0, 1) };
    let want = Some("abc".to_string());
    let revision = Some(Revision { vcs: Vcs::Jj, id: "xyz".to_string(), branch: None });
    let content = |s: &str| Ok(s.to_string());
    let ws = path("/ws");
    assert!(validate_expectation(&want, &target, &ws, &content("abc d"), &None).is_ok());
    assert!(validate_expectation(&None, &target, &ws, &content("nope"), &None).is_ok());
    let err =
        validate_expectation(&want, &target, &ws, &content("  "), &revision).unwrap_err();
    assert_eq!(
        message(&err),
        "target validation failed: expected identifier `abc` at A.java:0:1, but Henka's copy has \
         no identifier there. Henka is reading `/ws` (jj xyz). The coordinate may have been \
         computed against a different revision or checkout — call project_status to compare, or \
         pass the matching `workspace`."
    );
    let err = validate_expectation(&want, &target, &ws, &Err("gone".to_string()), &None);
    assert_eq!(
        message(&err.unwrap_err()),
        "cannot read `/ws/A.java` to validate the target: gone"
    );
}

#[test]
fn repositories_are_compared() {
    let facts = |a: Option<&str>, b: Option<&str>, canonical: Option<&str>| RepoFacts {
        workspace: a.map(path),
        project: b.map(path),
        workspace_canonical: canonical.map(path),
        project_canonical: None,
    };
    let ok = |f: RepoFacts| ensure_same_repo(&f, &path("/link"), &path("/proj")).is_ok();
    assert!(ok(facts(Some("/r"), Some("/r"), None)));
    assert!(!ok(facts(Some("/r"), Some("/s"), None)));
    assert!(!ok(facts(Some("/r"), None, None)));
    assert!(ok(facts(None, None, Some("/proj"))));
    assert!(!ok(facts(None, None, None)));
}

#[test]
fn edits_outside_are_refused() {
    let edit = |p: &str| WorkspaceEdit {
        encoding: PositionEncoding::Utf16,
        files: vec![FileEdit { path: path(p), edits: vec![] }],
        file_ops: vec![],
    };
    assert!(reject_edits_outside(&edit("/ws/a"), &path("/ws")).is_ok());
    assert!(reject_edits_outside(&edit("a"), &path("/ws")).is_ok());
    assert!(reject_edits_outside(&edit("/wsx/a"), &path("/ws")).is_err());
}

#[test]
fn errors_are_answered() {
    assert!(matches!(
        into_mcp(&Error::ProjectNotFound("x".to_string())),
        McpError::InvalidParams(_)
    ));
    assert!(matches!(into_mcp(&Error::Io("x".to_string())), McpError::Internal(_)));
    assert!(read_resource("skill://henka/refactoring").is_ok());
    assert!(matches!(
        read_resource("skill://other"),
        Err(McpError::ResourceNotFound { .. })
    ));
}

#[test]
fn blank_hosts_are_passed_over() {
    let given = vec![" a ".to_string(), "".to_string(), "  ".to_string(), "b".to_string()];
    assert_eq!(extra_hosts(&given), vec!["a".to_string(), "b".to_string()]);
}

#[test]
fn providers_are_kept_by_language() {
    let world = world();
    assert_eq!(world.mcp.providers.languages(), vec![Language::Java]);
    assert!(world.mcp.providers.get(Language::Rust).is_none());
    let guard: RequestGuard<u8> = RequestGuard::holding(1);
    drop(guard);
    let none: RequestGuard<u8> = RequestGuard::none();
    drop(none);
}

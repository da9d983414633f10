use henka::backend::{
    choose_action, normalize_parameters, position_target, Action, ChoiceRule, Reply,
};
use henka::edit::{Position, Range};
use henka::error::Error;
use henka::java::error::JavaError;
use henka::java::jdtls::{
    bundle_candidates, candidates, initialize, is_ready, java_candidate, java_executable,
    launch_args, launcher_in, locate_bundle, Distribution, JdtlsInstall, JdtlsSession, Platform,
    Profile,
};
use henka::java::operations::{ChangeSignatureOp, CodeActionOp, FindUsagesOp, RenameOp};
use henka::java::provider;
use henka::json::{Json, Number};
use henka::language::Language;
use henka::locate::{cache_base, first_present, list_paths, Probed};
use henka::operation::{
    OperationDescriptor, OperationKind, OperationRequest, Target, TargetKind,
};
use henka::path::PathBuf;
use henka::provider::LanguageSession;
use henka::rust_lang;
use henka::ts;
use henka::ts::operations::{hear, Heard};
use henka::ts::server::{Located, TsSession};

fn path(text: &str) -> PathBuf {
    PathBuf::new(text)
}

fn convert(value: &serde_json::Value) -> Json {
    match value {
        serde_json::Value::Null => Json::Null,
        serde_json::Value::Bool(b) => Json::Bool(*b),
        serde_json::Value::Number(n) => Json::Number(match (n.as_u64(), n.as_i64()) {
            (Some(u), _) => Number::Unsigned(u),
            (None, Some(i)) => Number::Negative(i),
            _ => Number::Other(n.to_string()),
        }),
        serde_json::Value::String(s) => Json::Text(s.clone()),
        serde_json::Value::Array(items) => Json::Array(items.iter().map(convert).collect()),
        serde_json::Value::Object(members) => {
            Json::Object(members.iter().map(|(k, v)| (k.clone(), convert(v))).collect())
        }
    }
}

fn json(text: &str) -> Json {
    convert(&serde_json::from_str(text).unwrap())
}

fn sorted(value: &Json) -> Json {
    match value {
        Json::Object(members) => {
            let mut out: Vec<(String, Json)> =
                members.iter().map(|(k, v)| (k.clone(), sorted(v))).collect();
            out.sort_by(|a, b| a.0.cmp(&b.0));
            Json::Object(out)
        }
        Json::Array(items) => Json::Array(items.iter().map(sorted).collect()),
        other => other.copy(),
    }
}

fn at(file: &str, line: u32, character: u32, params: &str) -> OperationRequest {
    OperationRequest {
        target: Target::Position {
            file: path(file),
            position: Position::new(line, character),
        },
        params: json(params),
    }
}

fn selection(file: &str) -> OperationRequest {
    OperationRequest {
        target: Target::Selection {
            file: path(file),
            range: Range::new(Position::new(1, 2), Position::new(3, 4)),
        },
        params: json("{}"),
    }
}

fn opened(uri: &str) -> Reply {
    Reply::Opened { uri: uri.to_string() }
}

fn request(action: &Action) -> (String, Json) {
    match action {
        Action::Request { method, params } => (method.clone(), sorted(params)),
        other => panic!("unexpected {other:?}"),
    }
}

#[test]
fn normalize_parameters_maps_to_server_shape() {
    let provided = json(
        "[{\"type\":\"int\",\"name\":\"b\",\"original_index\":1},{\"type\":\"String\",\
         \"name\":\"extra\",\"default_value\":\"\\\"x\\\"\",\"original_index\":-1}]",
    );
    assert_eq!(
        sorted(&normalize_parameters(&provided)),
        json(
            "[{\"type\":\"int\",\"name\":\"b\",\"defaultValue\":null,\"originalIndex\":1},\
             {\"type\":\"String\",\"name\":\"extra\",\"defaultValue\":\"\\\"x\\\"\",\
             \"originalIndex\":-1}]"
        )
    );
}

#[test]
fn normalize_parameters_defaults_missing_original_index() {
    let mapped = normalize_parameters(&json("[{\"type\":\"int\",\"name\":\"n\"}]"));
    let first = &mapped.as_array().unwrap()[0];
    assert_eq!(first.get("originalIndex"), Some(&json("-1")));
    assert_eq!(first.get("defaultValue"), Some(&Json::Null));
}

#[test]
fn change_signature_descriptor_contract() {
    let d = ChangeSignatureOp.descriptor();
    assert_eq!(d.id, "change-signature");
    assert_eq!(d.kind, OperationKind::Edit);
    assert_eq!(d.target, TargetKind::Position);
    assert_eq!(d.languages, vec![Language::Java]);
    assert!(d.params_schema.get("properties").unwrap().get("parameters").is_some());
}

#[test]
fn java_code_action_set_contract() {
    let ops = CodeActionOp::java_set();
    let by_id: std::collections::BTreeMap<String, OperationDescriptor> =
        ops.iter().map(|o| (o.descriptor().id, o.descriptor())).collect();
    for id in [
        "extract-variable",
        "extract-constant",
        "extract-field",
        "extract-method",
        "inline",
        "organize-imports",
    ] {
        let d = by_id.get(id).unwrap_or_else(|| panic!("missing op `{id}`"));
        assert_eq!(d.kind, OperationKind::Edit);
    }
    assert_eq!(by_id["extract-variable"].target, TargetKind::Selection);
    assert_eq!(by_id["inline"].target, TargetKind::Position);
    assert_eq!(by_id["organize-imports"].target, TargetKind::File);
}

#[test]
fn providers_contribute_their_operations() {
    let ids = |ops: Vec<String>| ops.join(" ");
    assert_eq!(
        ids(provider::operations().iter().map(|o| o.descriptor.id.clone()).collect()),
        "rename find-usages change-signature extract-variable extract-constant extract-field \
         extract-method inline organize-imports"
    );
    assert_eq!(
        ids(rust_lang::provider::operations().iter().map(|o| o.descriptor.id.clone()).collect()),
        "rename find-usages extract-variable extract-constant extract-function inline"
    );
    assert_eq!(
        ids(ts::provider::operations().iter().map(|o| o.descriptor.id.clone()).collect()),
        "rename find-usages extract-function extract-constant"
    );
    assert_eq!(
        ts::operations::RenameOp.descriptor().languages,
        vec![Language::TypeScript, Language::JavaScript]
    );
    assert_eq!(rust_lang::operations::FindUsagesOp.descriptor().languages, vec![Language::Rust]);
}

#[test]
fn renames_run_to_an_edit() {
    let (run, action) = RenameOp.run(&at("A.java", 1, 4, "{\"new_name\":\"bar\"}"));
    match action {
        Action::Open { file } => assert_eq!(file, path("A.java")),
        other => panic!("unexpected {other:?}"),
    }
    let (run, action) = run.next(opened("file:///p/A.java"));
    assert_eq!(
        request(&action),
        (
            "textDocument/rename".to_string(),
            json(
                "{\"newName\":\"bar\",\"position\":{\"character\":4,\"line\":1},\
                 \"textDocument\":{\"uri\":\"file:///p/A.java\"}}"
            )
        )
    );
    let (_, action) = run.next(Reply::Answer(json("{\"changes\":{}}")));
    match action {
        Action::Edit(edit) => assert_eq!(edit, json("{\"changes\":{}}")),
        other => panic!("unexpected {other:?}"),
    }
}

#[test]
fn renames_need_a_name_and_a_position() {
    let (_, action) = RenameOp.run(&at("A.java", 1, 4, "{\"new_name\":\"\"}"));
    match action {
        Action::Fail(e) => assert_eq!(e.message(), "`new_name` is required"),
        other => panic!("unexpected {other:?}"),
    }
    let (_, action) = RenameOp.run(&selection("A.java"));
    assert!(matches!(action, Action::Fail(Error::InvalidTarget(_))));
    assert!(position_target(&Target::Project).is_err());
}

#[test]
fn failures_end_a_run() {
    let (run, _) = FindUsagesOp.run(&at("A.java", 0, 0, "{}"));
    let (_, action) = run.next(Reply::Failed("gone".to_string()));
    match action {
        Action::Fail(e) => assert_eq!(e.message(), "language backend error: gone"),
        other => panic!("unexpected {other:?}"),
    }
}

#[test]
fn usages_include_the_declaration_by_default() {
    let (run, _) = FindUsagesOp.run(&at("A.java", 2, 3, "{}"));
    let (run, action) = run.next(opened("file:///p/A.java"));
    let (method, params) = request(&action);
    assert_eq!(method, "textDocument/references");
    assert_eq!(params.get("context"), Some(&json("{\"includeDeclaration\":true}")));
    let (_, action) = run.next(Reply::Answer(json("[]")));
    assert!(matches!(action, Action::Usages(_)));
}

#[test]
fn actions_are_chosen_by_kind_and_title() {
    let actions = json(
        "[{\"kind\":\"refactor.inline\",\"title\":\"Convert to lambda\"},\
          {\"kind\":\"refactor.inline\",\"title\":\"inline variable\"}]",
    );
    let inline = ChoiceRule::SingleTarget { prefer_title: Some("Inline".to_string()) };
    let chosen = choose_action(&inline, "refactor.inline", "inline", &actions).unwrap();
    assert_eq!(chosen.get_str("title"), Some("inline variable"));
    let keyword = ChoiceRule::Keyword { keyword: Some("function".to_string()) };
    let err = choose_action(&keyword, "refactor.inline", "extract-function", &actions);
    assert_eq!(
        err.unwrap_err().message(),
        "operation `extract-function is not available at this location` is not available for \
         this project"
    );
    let sub = json("[{\"kind\":\"refactor.extract.function.scope_0\",\"title\":\"x\"}]");
    assert!(choose_action(&ChoiceRule::SubKind, "refactor.extract.function", "f", &sub).is_ok());
}

#[test]
fn actions_without_an_edit_are_completed() {
    let set = CodeActionOp::java_set();
    let (run, _) = set[0].run(&selection("A.java"));
    let (run, action) = run.next(opened("file:///p/A.java"));
    let (method, params) = request(&action);
    assert_eq!(method, "textDocument/codeAction");
    assert_eq!(
        params.get("context"),
        Some(&json("{\"diagnostics\":[],\"only\":[\"refactor.extract.variable\"]}"))
    );
    let list = json("[{\"kind\":\"refactor.extract.variable\",\"title\":\"Extract\"}]");
    let (run, action) = run.next(Reply::Answer(list));
    assert_eq!(request(&action).0, "codeAction/resolve");
    let (_, action) = run.next(Reply::Answer(json("{\"edit\":{\"changes\":{}}}")));
    match action {
        Action::Edit(edit) => assert_eq!(edit, json("{\"changes\":{}}")),
        other => panic!("unexpected {other:?}"),
    }
}

#[test]
fn commands_are_run_and_their_edits_captured() {
    let set = ts::operations::CodeActionOp::ts_set();
    let (run, _) = set[0].run(&selection("a.ts"));
    let (run, _) = run.next(opened("file:///p/a.ts"));
    let list = json(
        "[{\"kind\":\"refactor.extract.function\",\"title\":\"x\",\"command\":{\"command\":\
          \"_typescript.applyRefactoring\",\"arguments\":[1]}}]",
    );
    let (run, action) = run.next(Reply::Answer(list));
    match action {
        Action::Capture { method, params } => {
            assert_eq!(method, "workspace/executeCommand");
            assert_eq!(
                sorted(&params),
                json("{\"arguments\":[1],\"command\":\"_typescript.applyRefactoring\"}")
            );
        }
        other => panic!("unexpected {other:?}"),
    }
    let (_, action) = run.next(Reply::Captured(None));
    assert!(matches!(action, Action::NoEdit));
}

#[test]
fn edits_are_heard() {
    assert!(matches!(hear("window/logMessage", &json("{}")), Heard::Other));
    match hear("workspace/applyEdit", &json("{\"edit\":{\"changes\":{}}}")) {
        Heard::Edit(Some(edit)) => assert_eq!(edit, json("{\"changes\":{}}")),
        other => panic!("unexpected {other:?}"),
    }
    assert!(matches!(hear("workspace/applyEdit", &json("{}")), Heard::Edit(None)));
}

#[test]
fn signatures_keep_what_is_not_given() {
    let (run, _) = ChangeSignatureOp.run(&at("A.java", 1, 1, "{\"name\":\"sum\"}"));
    let (run, action) = run.next(opened("file:///p/A.java"));
    assert_eq!(request(&action).0, "workspace/executeCommand");
    let info = json(
        "{\"methodIdentifier\":\"m\",\"methodName\":\"add\",\"modifier\":\"public\",\
         \"returnType\":\"int\",\"parameters\":[1],\"exceptions\":[]}",
    );
    let (run, action) = run.next(Reply::Answer(info));
    let (_, params) = request(&action);
    let refactor = &params.get("arguments").unwrap().as_array().unwrap()[0];
    assert_eq!(
        refactor.get("commandArguments"),
        Some(&json("[\"m\",false,\"sum\",\"public\",\"int\",[1],[],false]"))
    );
    let (_, action) = run.next(Reply::Answer(json("{\"errorMessage\":\"nope\"}")));
    match action {
        Action::Fail(e) => {
            assert_eq!(e.message(), "language backend error: change-signature failed: nope");
        }
        other => panic!("unexpected {other:?}"),
    }
}

fn distribution(home: &str, plugins: Option<Vec<&str>>) -> Distribution {
    Distribution {
        home: path(home),
        plugins: plugins.map(|v| v.into_iter().map(|s| s.to_string()).collect()),
    }
}

#[test]
fn distributions_are_looked_for_in_order() {
    let home = Some("/opt/jdtls".to_string());
    assert_eq!(
        candidates(&home, &path("/cache/henka")),
        vec![path("/opt/jdtls"), path(".cache/jdtls"), path("/cache/henka/jdtls")]
    );
    let launcher = "org.eclipse.equinox.launcher_1.6.jar";
    let found = JdtlsInstall::locate(&vec![
        distribution("/a", None),
        distribution("/b", Some(vec!["org.eclipse.equinox.launcher_1.txt"])),
        distribution("/c", Some(vec!["x.jar", launcher])),
        distribution("/d", Some(vec![launcher])),
    ])
    .unwrap();
    assert_eq!(found.home(), &path("/c"));
    let listing = Some(vec![launcher.to_string()]);
    assert_eq!(
        found.launcher_jar(&listing).unwrap(),
        path("/c/plugins/org.eclipse.equinox.launcher_1.6.jar")
    );
    assert_eq!(launcher_in(&path("/c"), &None), None);
    let err = JdtlsInstall::locate(&vec![distribution("/a", None), distribution("/b", None)]);
    assert_eq!(
        err.unwrap_err().message(),
        "could not locate a jdtls distribution (looked at: /a, /b); set JDTLS_HOME or run \
         scripts/fetch-jdtls.sh"
    );
}

#[test]
fn incomplete_distributions_are_reported() {
    let err = JdtlsInstall::at(&distribution("/a", Some(vec![]))).unwrap_err();
    assert_eq!(
        err.message(),
        "jdtls install at /a is incomplete: no plugins/org.eclipse.equinox.launcher_*.jar"
    );
    let launcher = "org.eclipse.equinox.launcher_1.6.jar";
    let install = JdtlsInstall::at(&distribution("/a", Some(vec![launcher]))).unwrap();
    let dirs = vec!["config_linux".to_string()];
    assert_eq!(
        install.platform_config(Platform::LinuxArm, &dirs).unwrap(),
        path("/a/config_linux")
    );
    assert!(matches!(
        install.platform_config(Platform::Windows, &dirs),
        Err(JavaError::JdtlsIncomplete(_, _))
    ));
    assert_eq!(
        JavaError::JavaNotFound.message(),
        "no Java runtime found; set JAVA_HOME or put `java` on PATH"
    );
}

#[test]
fn caches_are_under_the_cache_directory() {
    let home = Some("/home/me".to_string());
    let xdg = Some("/xdg".to_string());
    assert_eq!(cache_base("henka", &xdg, &home), path("/xdg/henka"));
    assert_eq!(cache_base("henka", &Some("".to_string()), &home), path("/home/me/.cache/henka"));
    assert_eq!(cache_base("refactor-mcp", &None, &None), path(".cache/refactor-mcp"));
}

#[test]
fn the_first_file_is_taken() {
    let places = |flags: [bool; 3]| -> Vec<Probed> {
        bundle_candidates(&Some("/x.jar".to_string()), &path("/c"))
            .into_iter()
            .zip(flags)
            .map(|(path, present)| Probed { path, present })
            .collect()
    };
    assert_eq!(locate_bundle(&places([true, true, true])), Some(path("/x.jar")));
    assert_eq!(
        locate_bundle(&places([false, false, true])),
        Some(path("/c/henka-jdtls-bundle.jar"))
    );
    assert_eq!(first_present(&places([false, false, false])), None);
    assert_eq!(list_paths(&vec![path("/a"), path("b")]), "/a, b");
    assert_eq!(list_paths(&vec![]), "");
}

#[test]
fn java_is_run_from_its_home() {
    let home = Some("/jdk".to_string());
    let candidate = java_candidate(&home).unwrap();
    assert_eq!(candidate, path("/jdk/bin/java"));
    assert_eq!(
        java_executable(&Some(Probed { path: candidate.clone(), present: true })),
        "/jdk/bin/java"
    );
    assert_eq!(java_executable(&Some(Probed { path: candidate, present: false })), "java");
    assert_eq!(java_executable(&None), "java");
    let args = launch_args(&path("/l.jar"), &path("/d/config"), &path("/d"));
    assert_eq!(
        args[10..],
        ["-jar", "/l.jar", "-configuration", "/d/config", "-data", "/d"].map(|s| s.to_string())
    );
}

#[test]
fn servers_are_greeted() {
    let bundles = vec![path("/b.jar")];
    let greeting = initialize(7, &path("/p"), &Profile::Headless { bundles });
    assert_eq!(greeting.get_str("rootUri"), Some("file:///p"));
    assert_eq!(greeting.get("processId"), Some(&json("7")));
    assert_eq!(
        sorted(greeting.get("initializationOptions").unwrap()),
        json(
            "{\"bundles\":[\"/b.jar\"],\"extendedClientCapabilities\":\
             {\"classFileContentsSupport\":true}}"
        )
    );
    let bare = initialize(7, &path("/p"), &Profile::Headless { bundles: vec![] });
    assert!(bare.get("initializationOptions").unwrap().get("bundles").is_none());
    let assisted = initialize(7, &path("/p"), &Profile::Assisted);
    let able =
        assisted.get("initializationOptions").unwrap().get("extendedClientCapabilities").unwrap();
    assert_eq!(able.get("moveRefactoringSupport"), Some(&Json::Bool(true)));
    let plain = ts::server::initialize(7, &path("/p"));
    assert_eq!(plain.get("initializationOptions"), Some(&json("{}")));
    assert!(plain.get("capabilities").unwrap().get("textDocument").unwrap().get("rename").is_some());
}

#[test]
fn readiness_is_a_status() {
    assert!(is_ready("language/status", &json("{\"type\":\"ServiceReady\"}")));
    assert!(is_ready("language/status", &json("{\"type\":\"Started\"}")));
    assert!(!is_ready("language/status", &json("{\"type\":\"Starting\"}")));
    assert!(!is_ready("window/logMessage", &json("{\"type\":\"ServiceReady\"}")));
}

#[test]
fn sessions_know_their_sources() {
    let java = JdtlsSession::start(&path("/p"));
    assert_eq!(java.language(), Language::Java);
    assert_eq!(java.root(), Some(&path("/p")));
    assert_eq!(java.uri_for(&path("A.java")), "file:///p/A.java");
    let session = TsSession::start(&path("/p"));
    assert_eq!(session.root(), &path("/p"));
    assert_eq!(session.session.language_id_for(&path("a.tsx")), "typescriptreact");
    assert_eq!(session.session.language_id_for(&path("a.mjs")), "javascript");
    assert!(!session.session.indexes(&path("a.java")));
}

#[test]
fn typescript_servers_are_looked_for() {
    let places: Vec<Probed> = ts::server::candidates(&Some("/ts".to_string()), &None, &path("/c"))
        .into_iter()
        .map(|path| Probed { path, present: false })
        .collect();
    assert_eq!(places.len(), 3);
    match ts::server::locate(&places, true) {
        Ok(Located::OnPath(name)) => assert_eq!(name, "typescript-language-server"),
        other => panic!("unexpected {other:?}"),
    }
    assert_eq!(
        ts::server::locate(&places, false).unwrap_err().message(),
        "could not locate typescript-language-server (looked at: /ts, \
         .cache/typescript-language-server/node_modules/.bin/typescript-language-server, \
         /c/typescript-language-server/node_modules/.bin/typescript-language-server, \
         typescript-language-server (PATH)); set HENKA_TYPESCRIPT_LANGUAGE_SERVER, put it on \
         PATH, or run `cargo xtask typescript`"
    );
    let there = vec![Probed { path: path("/ts"), present: true }];
    match ts::server::locate(&there, false) {
        Ok(Located::At(p)) => assert_eq!(p, path("/ts")),
        other => panic!("unexpected {other:?}"),
    }
}

#[test]
fn missing_analyzers_are_reported() {
    let e = rust_lang::error::RustError::RustAnalyzerNotFound("/x".to_string());
    assert_eq!(
        e.message(),
        "could not locate rust-analyzer (looked at: /x); set HENKA_RUST_ANALYZER, put it on \
         PATH, or run `cargo xtask rust-analyzer`"
    );
}

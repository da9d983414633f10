use henka::edit::{Position, Range, TextEdit};
use henka::json::{Json, Number};
use henka::lsp::client::{
    default_server_response, handle_incoming, notification_message, reply_message,
    request_message, Incoming, Pending,
};
use henka::lsp::convert::{LspDocumentChange, LspLocation, LspWorkspaceEdit};
use henka::lsp::error::LspError;
use henka::lsp::framing::{
    frame, parse_body, read_body, read_message, write_message, Header, HeaderStep, Read,
};
use henka::lsp::session::{
    DirEntry, EnsureOpen, LspSession, OverlayStep, Reconcile, SourceWalk,
};
use henka::java::error::JavaError;
use henka::java::lsp::to_core_workspace_edit as java_edit;
use henka::lsp::{locations_to_query, path_to_file_uri, to_core_workspace_edit, uri_to_path};
use henka::path::PathBuf;

fn path(text: &str) -> PathBuf {
    PathBuf::new(text)
}

fn convert(value: &serde_json::Value) -> Json {
    match value {
        serde_json::Value::Null => Json::Null,
        serde_json::Value::Bool(b) => Json::Bool(*b),
        serde_json::Value::Number(n) => Json::Number(match (n.as_u64(), n.as_i64()) {
            (Some(u), _) => Number::Unsigned(u),
            (None, Some(i)) => Number::Negative(i),
            _ => Number::Other(n.to_string()),
        }),
        serde_json::Value::String(s) => Json::Text(s.clone()),
        serde_json::Value::Array(items) => Json::Array(items.iter().map(convert).collect()),
        serde_json::Value::Object(members) => {
            Json::Object(members.iter().map(|(k, v)| (k.clone(), convert(v))).collect())
        }
    }
}

fn json(text: &str) -> Json {
    convert(&serde_json::from_str(text).unwrap())
}

/// The value with the members of its objects in the order of their names.
fn sorted(value: &Json) -> Json {
    match value {
        Json::Object(members) => {
            let mut out: Vec<(String, Json)> =
                members.iter().map(|(k, v)| (k.clone(), sorted(v))).collect();
            out.sort_by(|a, b| a.0.cmp(&b.0));
            Json::Object(out)
        }
        Json::Array(items) => Json::Array(items.iter().map(sorted).collect()),
        other => other.copy(),
    }
}

fn edit(l1: u32, c1: u32, l2: u32, c2: u32, new_text: &str) -> TextEdit {
    TextEdit {
        range: Range::new(Position::new(l1, c1), Position::new(l2, c2)),
        new_text: new_text.to_string(),
    }
}

fn java_session() -> LspSession {
    LspSession::new(&path("/proj"), vec![("java".to_string(), "java".to_string())])
}

#[test]
fn decodes_uri() {
    assert_eq!(uri_to_path("file:///a/b%20c/D.java"), path("/a/b c/D.java"));
}

#[test]
fn paths_survive_their_uris() {
    assert_eq!(path_to_file_uri(&path("/a b/#1/what?.java")), "file:///a%20b/%231/what%3F.java");
    for p in ["/a b/#1/what?.java", "/plain/A.java", "/ünï/💡.ts"] {
        assert_eq!(uri_to_path(path_to_file_uri(&path(p)).as_str()), path(p));
    }
}

#[test]
fn maps_changes_map() {
    let value = LspWorkspaceEdit {
        changes: Some(vec![("file:///proj/A.java".to_string(), vec![edit(1, 4, 1, 7, "bar")])]),
        document_changes: None,
    };
    let edit = to_core_workspace_edit(&Some(value)).unwrap();
    assert_eq!(edit.files.len(), 1);
    assert_eq!(edit.files[0].path, path("/proj/A.java"));
    assert_eq!(edit.files[0].edits[0].new_text, "bar");
}

#[test]
fn maps_document_changes() {
    let value = LspWorkspaceEdit {
        changes: None,
        document_changes: Some(vec![LspDocumentChange::Edits {
            uri: "file:///proj/B.java".to_string(),
            edits: vec![edit(0, 0, 0, 3, "Baz")],
        }]),
    };
    let edit = to_core_workspace_edit(&Some(value)).unwrap();
    assert_eq!(edit.files.len(), 1);
    assert_eq!(edit.files[0].path, path("/proj/B.java"));
}

#[test]
fn rejects_resource_operations() {
    let value = LspWorkspaceEdit {
        changes: None,
        document_changes: Some(vec![LspDocumentChange::Resource { kind: "rename".to_string() }]),
    };
    let value = Some(value);
    let err = java_edit(&value).unwrap_err();
    assert!(matches!(err, JavaError::UnsupportedFileOperation(_)));
    assert_eq!(err.message(), "unsupported file operation: rename");
    assert_eq!(to_core_workspace_edit(&value).unwrap_err(), "rename");
}

#[test]
fn null_edit_is_empty() {
    assert!(to_core_workspace_edit(&None).unwrap().is_empty());
}

#[test]
fn edits_of_one_document_are_grouped() {
    let value = LspWorkspaceEdit {
        changes: None,
        document_changes: Some(vec![
            LspDocumentChange::Edits {
                uri: "file:///proj/B.java".to_string(),
                edits: vec![edit(0, 0, 0, 1, "b")],
            },
            LspDocumentChange::Edits {
                uri: "file:///proj/A.java".to_string(),
                edits: vec![edit(0, 0, 0, 1, "a")],
            },
            LspDocumentChange::Edits {
                uri: "file:///proj/B.java".to_string(),
                edits: vec![edit(1, 0, 1, 1, "c")],
            },
        ]),
    };
    let out = to_core_workspace_edit(&Some(value)).unwrap();
    let total: usize = out.files.iter().map(|f| f.edits.len()).sum();
    assert_eq!(out.files.len(), 2);
    assert_eq!(total, 3);
}

#[test]
fn usages_are_relative_to_the_root() {
    let found = vec![
        LspLocation {
            uri: "file:///proj/src/A.java".to_string(),
            range: Range::new(Position::new(1, 2), Position::new(3, 4)),
        },
        LspLocation {
            uri: "file:///lib/B.java".to_string(),
            range: Range::new(Position::new(0, 0), Position::new(0, 1)),
        },
    ];
    let out = locations_to_query(&Some(found), &path("/proj"));
    assert_eq!(
        sorted(&out),
        json(
            "{\"count\":2,\"usages\":[{\"file\":\"src/A.java\",\"start_line\":1,\
             \"start_character\":2,\"end_line\":3,\"end_character\":4},{\"file\":\
             \"/lib/B.java\",\"start_line\":0,\"start_character\":0,\"end_line\":0,\
             \"end_character\":1}]}"
        )
    );
    assert_eq!(locations_to_query(&None, &path("/proj")), json("{\"usages\":[]}"));
}

#[test]
fn round_trips_a_message() {
    let msg = json("{\"jsonrpc\":\"2.0\",\"id\":1,\"method\":\"ping\",\"params\":{\"x\":1}}");
    let bytes = write_message(&msg).unwrap();
    let got = read_message(&bytes, 0).unwrap().unwrap();
    assert_eq!(got.value, msg);
    assert!(read_message(&bytes, got.next).unwrap().is_none());
}

#[test]
fn reads_two_messages_back_to_back() {
    let mut bytes = write_message(&json("{\"id\":1}")).unwrap();
    bytes.extend(write_message(&json("{\"id\":2}")).unwrap());
    let first = read_message(&bytes, 0).unwrap().unwrap();
    assert_eq!(first.value, json("{\"id\":1}"));
    let second = read_message(&bytes, first.next).unwrap().unwrap();
    assert_eq!(second.value, json("{\"id\":2}"));
    assert!(read_message(&bytes, second.next).unwrap().is_none());
}

#[test]
fn frames_have_a_length() {
    assert_eq!(frame(&b"{}".to_vec()), b"Content-Length: 2\r\n\r\n{}".to_vec());
    assert_eq!(read_body(&b"X: 1\r\n\r\n{}".to_vec(), 0), Read::NoLength);
    assert_eq!(read_body(&b"Content-Length: 9\r\n\r\n{}".to_vec(), 0), Read::Truncated);
    assert_eq!(read_body(&vec![0xff, b'\n', b'\n'], 0), Read::NotText);
    assert_eq!(
        read_body(&b"Content-Length: 2\r\n\r\n{}".to_vec(), 0),
        Read::Message { body: b"{}".to_vec(), next: 23 }
    );
}

#[test]
fn messages_are_sent_as_json_text() {
    let msg = Json::Object(vec![
        ("b".to_string(), Json::Array(vec![Json::Null, Json::Bool(true)])),
        ("a".to_string(), Json::Number(Number::Negative(-7))),
    ]);
    assert_eq!(
        write_message(&msg).unwrap(),
        b"Content-Length: 24\r\n\r\n{\"a\":-7,\"b\":[null,true]}".to_vec()
    );
    let bytes = write_message(&msg).unwrap();
    assert_eq!(read_message(&bytes, 0).unwrap().unwrap().value, sorted(&msg));
    let request = write_message(&request_message(7, "ping", json("{}"))).unwrap();
    let heard = read_message(&request, 0).unwrap().unwrap().value;
    assert_eq!(heard.get_str("method"), Some("ping"));
    assert_eq!(heard.get("id"), Some(&Json::unsigned(7)));
    let no_number = Json::Number(Number::Other("seven".to_string()));
    assert!(matches!(write_message(&no_number), Err(LspError::Json(_))));
}

#[test]
fn bodies_are_read_as_json_text() {
    assert_eq!(
        parse_body(&b" {\"x\" : [1, -2, 2.5, \"\\u00e9\"]} ".to_vec()).unwrap(),
        Json::Object(vec![(
            "x".to_string(),
            Json::Array(vec![
                Json::Number(Number::Unsigned(1)),
                Json::Number(Number::Negative(-2)),
                Json::Number(Number::Other("2.5".to_string())),
                Json::Text("é".to_string()),
            ])
        )])
    );
    assert!(matches!(parse_body(&b"{".to_vec()), Err(LspError::Json(_))));
}

#[test]
fn broken_messages_are_told_apart() {
    let read = |text: &[u8]| read_message(&text.to_vec(), 0).map(|m| m.is_some());
    assert!(!read(b"").unwrap());
    assert!(!read(b"Content-Length: 2\r\n").unwrap());
    assert_eq!(
        read(b"X: 1\r\n\r\n{}").unwrap_err().message(),
        "protocol error: message had no Content-Length header"
    );
    assert_eq!(read(b"Content-Length: 9\r\n\r\n{}").unwrap_err().message(), "early eof");
    assert_eq!(
        read(&[0xff, b'\n', b'\n']).unwrap_err().message(),
        "stream did not contain valid UTF-8"
    );
    assert!(matches!(read(b"Content-Length: 2\r\n\r\n{]"), Err(LspError::Json(_))));
}

#[test]
fn headers_are_read_line_by_line() {
    let mut header = Header::new();
    assert_eq!(header.take_line("Content-Type: x\r\n"), HeaderStep::NextLine);
    assert_eq!(header.take_line("Content-Length:  12 \r\n"), HeaderStep::NextLine);
    assert_eq!(header.take_line("\r\n"), HeaderStep::Body(12));
}

#[test]
fn messages_have_their_shape() {
    assert_eq!(
        sorted(&request_message(7, "ping", json("{}"))),
        json("{\"id\":7,\"jsonrpc\":\"2.0\",\"method\":\"ping\",\"params\":{}}")
    );
    assert_eq!(
        sorted(&notification_message("exit", Json::Null)),
        json("{\"jsonrpc\":\"2.0\",\"method\":\"exit\",\"params\":null}")
    );
    assert_eq!(
        sorted(&reply_message(Json::unsigned(3), Json::Null)),
        json("{\"id\":3,\"jsonrpc\":\"2.0\",\"result\":null}")
    );
}

#[test]
fn incoming_messages_are_told_apart() {
    match handle_incoming(&json("{\"id\":4,\"result\":{\"a\":1}}")) {
        Incoming::Response { id, outcome } => {
            assert_eq!(id, 4);
            assert_eq!(outcome.unwrap(), json("{\"a\":1}"));
        }
        other => panic!("unexpected {other:?}"),
    }
    match handle_incoming(&json("{\"id\":5,\"error\":{\"code\":-32601,\"message\":\"no\"}}")) {
        Incoming::Response { id, outcome } => {
            assert_eq!(id, 5);
            match outcome {
                Err(LspError::Response { code, message }) => {
                    assert_eq!(code, -32601);
                    assert_eq!(message, "no");
                }
                other => panic!("unexpected {other:?}"),
            }
        }
        other => panic!("unexpected {other:?}"),
    }
    match handle_incoming(&json("{\"id\":\"x\",\"method\":\"workspace/applyEdit\"}")) {
        Incoming::ServerRequest { reply } => assert_eq!(
            sorted(&reply),
            json("{\"id\":\"x\",\"jsonrpc\":\"2.0\",\"result\":{\"applied\":true}}")
        ),
        other => panic!("unexpected {other:?}"),
    }
    match handle_incoming(&json("{\"method\":\"language/status\"}")) {
        Incoming::Notification { method } => assert_eq!(method, "language/status"),
        other => panic!("unexpected {other:?}"),
    }
    assert!(matches!(handle_incoming(&json("{}")), Incoming::Ignored));
}

#[test]
fn settings_are_answered_one_by_one() {
    let params = json("{\"items\":[{},{}]}");
    assert_eq!(
        default_server_response("workspace/configuration", Some(&params)),
        json("[null,null]")
    );
    assert_eq!(default_server_response("window/showMessageRequest", None), Json::Null);
}

#[test]
fn requests_wait_under_their_own_ids() {
    let mut pending: Pending<&str> = Pending::new();
    let a = pending.open("a");
    let b = pending.open("b");
    assert_eq!((a, b), (1, 2));
    assert_eq!(pending.remove(a), Some("a"));
    assert_eq!(pending.remove(a), None);
    assert_eq!(pending.drain(), vec![(2, "b")]);
}

#[test]
fn errors_of_the_dialogue_have_texts() {
    assert_eq!(
        LspError::Response { code: -1, message: "bad".to_string() }.message(),
        "language server error -1: bad"
    );
    assert!(!LspError::Closed.message().is_empty());
    assert!(LspError::no_length().message().contains("Content-Length"));
}

#[test]
fn documents_are_opened_once() {
    let mut session = java_session();
    let file = path("src/A.java");
    match session.ensure_open(&file) {
        EnsureOpen::ReadAndSend { file, uri, language_id } => {
            assert_eq!(file, path("/proj/src/A.java"));
            assert_eq!(uri, "file:///proj/src/A.java");
            assert_eq!(language_id, "java");
            session.mark_opened(file);
        }
        other => panic!("unexpected {other:?}"),
    }
    assert!(matches!(session.ensure_open(&file), EnsureOpen::AlreadyOpen { .. }));
    assert!(session.begin_indexing());
    assert!(!session.begin_indexing());
}

#[test]
fn overlays_are_undone() {
    let mut session = java_session();
    session.mark_opened(path("/proj/A.java"));
    assert!(session.needs_overlay(&path("/wt")));
    assert!(!session.needs_overlay(&path("/proj")));
    let changed = session.overlay_file(&path("A.java"), &Some("class A2 {}".to_string()));
    assert!(matches!(changed, OverlayStep::Change { .. }), "{changed:?}");
    session.mark_overlaid(&changed);
    let opened = session.overlay_file(&path("B.java"), &Some("class B {}".to_string()));
    assert!(matches!(opened, OverlayStep::Open { .. }), "{opened:?}");
    session.mark_overlaid(&opened);
    assert_eq!(session.overlay_file(&path("notes.txt"), &Some("x".to_string())), OverlayStep::Skip);
    assert_eq!(session.overlay_file(&path("C.java"), &None), OverlayStep::Skip);
    assert!(session.has_leaked_overlay());
    let restore = session.restore_overlay();
    assert!(restore.changed.contains(&path("/proj/A.java")));
    assert!(restore.opened.contains(&path("/proj/B.java")));
    assert!(!session.has_leaked_overlay());
    assert!(session.is_open(&path("A.java")));
    assert!(!session.is_open(&path("B.java")));
}

#[test]
fn changed_documents_are_closed() {
    let mut session = java_session();
    session.mark_opened(path("/proj/A.java"));
    let plan = session.sync_changed(&vec![path("A.java"), path("B.java")]);
    assert_eq!(plan.close, vec!["file:///proj/A.java".to_string()]);
    assert_eq!(
        sorted(&plan.watch),
        json(
            "{\"changes\":[{\"type\":2,\"uri\":\"file:///proj/A.java\"},\
             {\"type\":2,\"uri\":\"file:///proj/B.java\"}]}"
        )
    );
    assert!(!session.is_open(&path("A.java")));
}

#[test]
fn diagnostics_show_that_a_document_is_known() {
    let mut wait = Reconcile::new();
    assert!(wait.is_done());
    wait.expect("file:///a".to_string());
    wait.notice("textDocument/publishDiagnostics", &json("{\"uri\":\"file:///b\"}"));
    assert!(!wait.is_done());
    wait.notice("textDocument/publishDiagnostics", &json("{\"uri\":\"file:///a\"}"));
    assert!(wait.is_done());
}

#[test]
fn source_files_are_searched_for() {
    let session = java_session();
    let mut walk = SourceWalk::new(&path("/proj"));
    assert_eq!(walk.next_dir(), Some(path("/proj")));
    let entry = |p: &str, name: &str, is_dir: bool| DirEntry {
        path: path(p),
        name: name.to_string(),
        is_dir,
    };
    walk.search(
        &session,
        &vec![
            entry("/proj/A.java", "A.java", false),
            entry("/proj/target", "target", true),
            entry("/proj/src", "src", true),
            entry("/proj/notes.txt", "notes.txt", false),
        ],
    );
    assert_eq!(walk.next_dir(), Some(path("/proj/src")));
    assert_eq!(walk.next_dir(), None);
    assert_eq!(walk.files(), vec![path("/proj/A.java")]);
}

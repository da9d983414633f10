use henka::edit::applier::unified_diff;
use henka::edit::{
    EditApplier, FileEdit, FileOperation, FileStep, Position, PositionEncoding, Range, TextEdit,
    WorkspaceEdit,
};
use henka::java::jdtls::{launcher_in, READY_TIMEOUT_SECONDS};
use henka::java::provider::operations as java_operations;
use henka::json::Json;
use henka::language::{Language, LanguageScan, TreeEntry};
use henka::lsp::session::{did_close_params, DirEntry, SourceWalk, MAX_INDEX_FILES};
use henka::lsp::LspSession;
use henka::operation::{
    OperationDescriptor, OperationKind, OperationRegistry, TargetKind,
};
use henka::path::PathBuf;
use henka::project::Project;
use henka::provider::unversioned_key;
use henka::registry::{derive_id, ConfigSource, ProjectRegistry, RootProbe};
use henka::rust_lang::provider::operations as rust_operations;
use henka::server::pathmap::PathMap;
use henka::ts::operations::CAPTURE_TIMEOUT_SECONDS;
use henka::vcs::Vcs;

fn path(text: &str) -> PathBuf {
    PathBuf::new(text)
}

fn descriptor(id: &str, languages: Vec<Language>) -> OperationDescriptor {
    OperationDescriptor {
        id: id.to_string(),
        title: id.to_string(),
        description: id.to_string(),
        kind: OperationKind::Query,
        languages,
        target: TargetKind::Project,
        params_schema: Json::Null,
    }
}

#[test]
fn previews_show_what_is_written() {
    let root = path("/proj");
    let insert = |text: &str| TextEdit {
        range: Range::new(Position::new(0, 0), Position::new(0, 0)),
        new_text: text.to_string(),
    };
    let edit = WorkspaceEdit {
        encoding: PositionEncoding::Utf16,
        files: vec![
            FileEdit { path: path("A.java"), edits: vec![insert("x")] },
            FileEdit { path: path("B.java"), edits: vec![insert("")] },
            FileEdit { path: path("/proj/C.java"), edits: vec![insert("y")] },
        ],
        file_ops: Vec::new(),
    };
    let sources = vec![
        Ok("a\n".to_string()),
        Ok("b\n".to_string()),
        Ok("c\n".to_string()),
    ];
    let shown = EditApplier::preview(&edit, &root, &sources).unwrap();
    let plan = EditApplier::apply(&edit, &root, &sources).unwrap();
    assert_eq!(
        plan.steps,
        vec![
            FileStep::Write { path: path("/proj/A.java"), text: "xa\n".to_string() },
            FileStep::Write { path: path("/proj/C.java"), text: "yc\n".to_string() },
        ]
    );
    assert_eq!(shown[0].path, path("A.java"));
    assert_eq!(shown[0].diff, unified_diff("a\n", "xa\n", &path("A.java")));
    let last = shown.last().unwrap();
    assert_eq!(last.path, path("C.java"));
    assert_eq!(last.diff, unified_diff("c\n", "yc\n", &path("C.java")));
    assert!(last.diff.contains("-c\n+yc\n"));
}

#[test]
fn operations_of_other_languages_change_nothing() {
    let mut few: OperationRegistry<u8> = OperationRegistry::new();
    few.push(descriptor("rename", vec![Language::Java]), 1);
    let mut more: OperationRegistry<u8> = OperationRegistry::new();
    more.push(descriptor("rename", vec![Language::Java]), 1);
    more.push(descriptor("rename", vec![Language::Rust]), 2);
    more.push(descriptor("format", vec![Language::Rust]), 3);

    let java = vec![Language::Java];
    assert_eq!(few.resolve("rename", &java).unwrap().operation, 1);
    assert_eq!(more.resolve("rename", &java).unwrap().operation, 1);
    assert!(few.resolve("format", &java).is_err());
    assert!(more.resolve("format", &java).is_err());
    let rust = vec![Language::Rust];
    assert_eq!(more.resolve("rename", &rust).unwrap().operation, 2);
}

#[test]
fn backends_share_the_names_of_their_operations() {
    let has_rename = |ids: Vec<String>| ids.iter().any(|id| id == "rename");
    assert!(has_rename(
        java_operations().into_iter().map(|o| o.descriptor.id).collect()
    ));
    assert!(has_rename(
        rust_operations().into_iter().map(|o| o.descriptor.id).collect()
    ));
}

#[test]
fn searches_end_at_their_bound() {
    let session = LspSession::new(
        &path("/proj"),
        vec![("java".to_string(), "java".to_string())],
    );
    let entries: Vec<DirEntry> = (0..MAX_INDEX_FILES + 5)
        .map(|n| DirEntry {
            path: path(&format!("/proj/F{n}.java")),
            name: format!("F{n}.java"),
            is_dir: false,
        })
        .collect();
    let mut walk = SourceWalk::new(&path("/proj"));
    assert_eq!(walk.next_dir(), Some(path("/proj")));
    walk.search(&session, &entries);
    assert_eq!(walk.next_dir(), None);
    let found = walk.files();
    assert_eq!(found.len(), MAX_INDEX_FILES);
    assert_eq!(found[0], path("/proj/F0.java"));
}

#[test]
fn scans_end_when_every_language_is_found() {
    let file = |name: &str| TreeEntry {
        depth: 1,
        name: name.to_string(),
        is_dir: false,
        is_file: true,
    };
    let mut scan = LanguageScan::new();
    assert!(scan.visit(&file("A.java")));
    assert!(scan.visit(&file("b.rs")));
    assert!(scan.visit(&file("c.ts")));
    assert!(!scan.visit(&file("d.js")));
    let found = scan.languages();
    assert!(!scan.visit(&file("E.java")));
    assert_eq!(scan.languages(), found);
    assert_eq!(
        found,
        vec![
            Language::Java,
            Language::Rust,
            Language::TypeScript,
            Language::JavaScript,
        ]
    );
}

#[test]
fn keys_tell_hashes_apart() {
    assert_eq!(unversioned_key(0), "novcs-0000000000000000");
    assert_eq!(unversioned_key(255), "novcs-00000000000000ff");
    assert_ne!(unversioned_key(1), unversioned_key(16));
}

#[test]
fn revisions_are_asked_for() {
    assert_eq!(Vcs::Git.id_args(), vec!["rev-parse", "--short", "HEAD"]);
    assert_eq!(Vcs::Git.branch_args(), vec!["rev-parse", "--abbrev-ref", "HEAD"]);
    assert_eq!(
        Vcs::Jj.id_args(),
        vec![
            "log",
            "-r",
            "@",
            "--no-graph",
            "--ignore-working-copy",
            "-T",
            "change_id.short()",
        ]
    );
    assert_eq!(
        Vcs::Jj.branch_args(),
        vec![
            "log",
            "-r",
            "@",
            "--no-graph",
            "--ignore-working-copy",
            "-T",
            "bookmarks.join(\" \")",
        ]
    );
}

#[test]
fn documents_are_closed_by_their_uris() {
    let params = did_close_params("file:///proj/A.java");
    let document = params.get("textDocument").unwrap();
    assert_eq!(document.get_str("uri"), Some("file:///proj/A.java"));
    assert_eq!(READY_TIMEOUT_SECONDS, 180);
    assert_eq!(CAPTURE_TIMEOUT_SECONDS, 5);
}

#[test]
fn edits_come_back_from_another_root() {
    let build = || WorkspaceEdit {
        encoding: PositionEncoding::Utf8,
        files: vec![
            FileEdit {
                path: path("/base/src/A.java"),
                edits: vec![TextEdit {
                    range: Range::new(Position::new(0, 0), Position::new(0, 1)),
                    new_text: "x".to_string(),
                }],
            },
            FileEdit { path: path("/else/B.java"), edits: Vec::new() },
        ],
        file_ops: vec![
            FileOperation::Rename { from: path("/base/a"), to: path("/else/b") },
            FileOperation::Create { path: path("/base/c") },
            FileOperation::Delete { path: path("/base/d") },
        ],
    };
    let mut edit = build();
    edit.retarget(&path("/base"), &path("/wt/one"));
    assert_eq!(edit.files[0].path, path("/wt/one/src/A.java"));
    assert_eq!(
        edit.file_ops[0],
        FileOperation::Rename { from: path("/wt/one/a"), to: path("/else/b") }
    );
    edit.retarget(&path("/wt/one"), &path("/base"));
    assert_eq!(edit, build());
}

#[test]
fn maps_are_read_entry_by_entry() {
    for separator in [',', ';', '\n'] {
        let both = PathMap::parse(&format!("/a=/x{separator}/b=/y"));
        for (from, to) in [("/a/f", "/x/f"), ("/b/f", "/y/f"), ("/c/f", "/c/f")] {
            assert_eq!(both.map(&path(from)), path(to));
        }
        assert_eq!(PathMap::parse("/a=/x").map(&path("/a/f")), path("/x/f"));
        assert_eq!(PathMap::parse("/b=/y").map(&path("/b/f")), path("/y/f"));
    }
}

#[test]
fn launchers_are_found_where_they_are_listed() {
    let listing = |names: &[&str]| Some(names.iter().map(|n| n.to_string()).collect::<Vec<_>>());
    let home = path("/jdtls");
    assert_eq!(launcher_in(&home, &None), None);
    assert_eq!(launcher_in(&home, &listing(&[])), None);
    assert_eq!(launcher_in(&home, &listing(&["org.eclipse.equinox.launcher.txt"])), None);
    assert_eq!(
        launcher_in(
            &home,
            &listing(&[
                "a.jar",
                "org.eclipse.equinox.launcher_1.jar",
                "org.eclipse.equinox.launcher_2.jar",
            ])
        ),
        Some(path("/jdtls/plugins/org.eclipse.equinox.launcher_1.jar"))
    );
}

#[test]
fn derived_ids_derive_themselves() {
    for (root, id) in [("/ws/My App!", "my-app"), ("/ws/my-app", "my-app"), ("/", "project")] {
        let derived = derive_id(&path(root));
        assert_eq!(derived, id);
        assert_eq!(derive_id(&path("/ws").join(&path(&derived))), derived);
    }
}

#[test]
fn registering_gives_the_new_ids_once() {
    let probe = |root: &str| RootProbe {
        path: path(root),
        exists: true,
        is_dir: true,
        canonical: Some(path(root)),
        languages: vec![Language::Java],
    };
    let mut registry =
        ProjectRegistry::load(path("/tmp/projects.toml"), ConfigSource::Missing).unwrap();
    registry.register(Some("old".to_string()), &probe("/ws/old")).unwrap();
    let added = registry.auto_register(&vec![
        Some(vec![probe("/ws/old"), probe("/ws/a"), probe("/ws/b")]),
        None,
        Some(vec![probe("/ws/a"), probe("/other/a")]),
    ]);
    let mut distinct = added.clone();
    distinct.sort();
    distinct.dedup();
    assert_eq!(distinct.len(), added.len());
    let mut ids: Vec<String> = registry.list().iter().map(|p| p.id.clone()).collect();
    ids.retain(|id| id != "old");
    ids.sort();
    assert_eq!(distinct, ids);
    assert!(added.contains(&"a".to_string()) && added.contains(&"b".to_string()));
}

#[test]
fn what_is_listed_is_what_is_resolved() {
    let mut operations: OperationRegistry<u8> = OperationRegistry::new();
    let mut second = descriptor("rename", vec![Language::Rust]);
    second.title = "second".to_string();
    operations.push(descriptor("rename", vec![Language::Java]), 1);
    operations.push(second, 2);
    operations.push(descriptor("format", vec![Language::TypeScript]), 3);
    let project = Project {
        id: "p".to_string(),
        root: path("/p"),
        languages: vec![Language::Rust, Language::Java],
    };
    let listed = operations.descriptors_for(&project);
    assert_eq!(listed.len(), 1);
    let resolved = operations.resolve("rename", &project.languages).unwrap();
    assert_eq!(listed[0].title, resolved.descriptor.title);
    assert!(operations.resolve("format", &project.languages).is_err());

    let rust = Project { id: "r".to_string(), root: path("/r"), languages: vec![Language::Rust] };
    assert_eq!(operations.descriptors_for(&rust)[0].title, "second");
    assert_eq!(operations.resolve("rename", &rust.languages).unwrap().operation, 2);
}

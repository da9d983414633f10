use henka::error::Error;
use henka::language::{detect_languages, keep_entry, Language, TreeEntry};
use henka::path::PathBuf;
use henka::project::{validate_project_id, Project};
use henka::registry::{
    data_root, default_config_path, derive_id, ConfigSource, ProjectRegistry, RegistryFile,
    RootProbe,
};
use henka::vcs::{detect_revision, Revision, Vcs};

fn path(text: &str) -> PathBuf {
    PathBuf::new(text)
}

fn entry(depth: usize, is_dir: bool, name: &str) -> TreeEntry {
    TreeEntry { depth, is_dir, is_file: !is_dir, name: name.to_string() }
}

fn java_project(root: &str) -> RootProbe {
    RootProbe {
        path: path(root),
        exists: true,
        is_dir: true,
        canonical: Some(path(root)),
        languages: vec![Language::Java],
    }
}

fn registry() -> ProjectRegistry {
    ProjectRegistry::load(path("/cfg/projects.toml"), ConfigSource::Missing).unwrap()
}

#[test]
fn valid_ids() {
    assert!(validate_project_id("my-service"));
    assert!(validate_project_id("svc1"));
    assert!(validate_project_id("a"));
}

#[test]
fn invalid_ids() {
    assert!(!validate_project_id(""));
    assert!(!validate_project_id("-leading"));
    assert!(!validate_project_id("trailing-"));
    assert!(!validate_project_id("Has_Underscore"));
    assert!(!validate_project_id("UpperCase"));
    assert!(!validate_project_id("with space"));
}

#[test]
fn from_path_maps_known_and_unknown_extensions() {
    assert_eq!(Language::from_path(&path("src/Main.java")), Some(Language::Java));
    assert_eq!(Language::from_path(&path("src/main.rs")), Some(Language::Rust));
    assert_eq!(Language::from_path(&path("src/app.ts")), Some(Language::TypeScript));
    assert_eq!(Language::from_path(&path("src/app.tsx")), Some(Language::TypeScript));
    assert_eq!(Language::from_path(&path("src/app.js")), Some(Language::JavaScript));
    assert_eq!(Language::from_path(&path("src/app.mjs")), Some(Language::JavaScript));
    assert_eq!(Language::from_path(&path("README.md")), None);
    assert_eq!(Language::from_path(&path("noext")), None);
}

#[test]
fn language_detects_java_from_source_file() {
    let tree = vec![
        entry(0, true, "root"),
        entry(1, true, "src"),
        entry(2, true, "main"),
        entry(3, true, "java"),
        entry(4, true, "com"),
        entry(5, true, "example"),
        entry(6, false, "Main.java"),
    ];
    assert_eq!(detect_languages(&tree), vec![Language::Java]);
}

#[test]
fn language_detects_java_from_pom() {
    let tree = vec![entry(0, true, "root"), entry(1, false, "pom.xml")];
    assert_eq!(detect_languages(&tree), vec![Language::Java]);
}

#[test]
fn detects_typescript_and_javascript() {
    let tree = vec![
        entry(0, true, "root"),
        entry(1, false, "tsconfig.json"),
        entry(1, false, "app.ts"),
        entry(1, false, "util.js"),
    ];
    let langs = detect_languages(&tree);
    assert!(langs.contains(&Language::TypeScript), "{langs:?}");
    assert!(langs.contains(&Language::JavaScript), "{langs:?}");
}

#[test]
fn detects_rust_from_cargo_and_source() {
    let tree = vec![
        entry(0, true, "root"),
        entry(1, false, "Cargo.toml"),
        entry(1, true, "src"),
        entry(2, false, "main.rs"),
    ];
    assert_eq!(detect_languages(&tree), vec![Language::Rust]);
}

#[test]
fn detects_both_languages_in_one_tree() {
    let tree =
        vec![entry(0, true, "root"), entry(1, false, "pom.xml"), entry(1, false, "Cargo.toml")];
    let langs = detect_languages(&tree);
    assert!(langs.contains(&Language::Java), "{langs:?}");
    assert!(langs.contains(&Language::Rust), "{langs:?}");
}

#[test]
fn language_empty_tree_detects_nothing() {
    assert!(detect_languages(&vec![entry(0, true, "root")]).is_empty());
}

#[test]
fn language_skips_build_directories() {
    let tree = vec![
        entry(0, true, "root"),
        entry(1, true, "target"),
        entry(2, false, "Generated.java"),
    ];
    assert!(detect_languages(&tree).is_empty());
    assert!(!keep_entry(1, true, "node_modules"));
    assert!(keep_entry(1, true, "src"));
    assert!(keep_entry(0, true, "target"));
}

#[test]
fn names_of_languages() {
    assert_eq!(Language::Java.as_str(), "java");
    assert_eq!(Language::TypeScript.as_str(), "typescript");
}

#[test]
fn data_root_places_registry_under_it() {
    let data = Some("/srv/henka-data".to_string());
    assert_eq!(
        default_config_path(&None, &data, &None, &None),
        path("/srv/henka-data/projects.toml")
    );
    assert_eq!(data_root(&data), Some(path("/srv/henka-data")));
    let explicit = Some("/explicit/cfg.toml".to_string());
    assert_eq!(
        default_config_path(&explicit, &data, &None, &None),
        path("/explicit/cfg.toml")
    );
}

#[test]
fn configuration_falls_back_to_the_home_directory() {
    let home = Some("/home/me".to_string());
    let empty = Some("".to_string());
    assert_eq!(
        default_config_path(&None, &empty, &empty, &home),
        path("/home/me/.config/henka/projects.toml")
    );
    assert_eq!(
        default_config_path(&None, &None, &Some("/xdg".to_string()), &home),
        path("/xdg/henka/projects.toml")
    );
    assert_eq!(
        default_config_path(&None, &None, &None, &None),
        path(".config/henka/projects.toml")
    );
}

#[test]
fn register_get_unregister() {
    let mut reg = registry();
    let project = reg.register(Some("svc".to_string()), &java_project("/tmp/svc")).unwrap();
    assert_eq!(project.id, "svc");
    assert_eq!(project.languages, vec![Language::Java]);
    assert_eq!(reg.get("svc").unwrap().id, "svc");

    let removed = reg.unregister("svc").unwrap();
    assert_eq!(removed.id, "svc");
    assert!(reg.get("svc").is_err());
    assert!(matches!(reg.unregister("svc"), Err(Error::ProjectNotFound(_))));
}

#[test]
fn persists_across_reload() {
    let mut reg = registry();
    reg.register(Some("svc".to_string()), &java_project("/tmp/svc")).unwrap();
    let file = RegistryFile::from_projects(&reg);
    let reg =
        ProjectRegistry::load(path("/cfg/projects.toml"), ConfigSource::Parsed(file)).unwrap();
    assert_eq!(reg.len(), 1);
    let project = reg.get("svc").unwrap();
    assert_eq!(project.languages, vec![Language::Java]);
}

#[test]
fn rejects_duplicate_id() {
    let mut reg = registry();
    reg.register(Some("svc".to_string()), &java_project("/tmp/svc")).unwrap();
    let err = reg.register(Some("svc".to_string()), &java_project("/tmp/svc")).unwrap_err();
    assert!(matches!(err, Error::ProjectAlreadyExists(_)));
}

#[test]
fn rejects_root_without_language() {
    let mut reg = registry();
    let mut empty = java_project("/tmp/empty");
    empty.languages = Vec::new();
    let err = reg.register(Some("empty".to_string()), &empty).unwrap_err();
    assert!(matches!(err, Error::NoLanguageDetected(_)));
}

#[test]
fn rejects_other_roots() {
    let mut reg = registry();
    let mut missing = java_project("/tmp/missing");
    missing.exists = false;
    assert!(matches!(
        reg.register(None, &missing),
        Err(Error::PathNotFound(_))
    ));
    let mut file = java_project("/tmp/file");
    file.is_dir = false;
    assert!(matches!(reg.register(None, &file), Err(Error::NotADirectory(_))));
    assert!(matches!(
        reg.register(Some("Bad Id".to_string()), &java_project("/tmp/svc")),
        Err(Error::InvalidProjectId(_))
    ));
    assert!(reg.is_empty());
}

#[test]
fn auto_registers_child_projects_idempotently() {
    let mut reg = registry();
    let mut empty = java_project("/ws/empty");
    empty.languages = Vec::new();
    let listing =
        || Some(vec![java_project("/ws/svc-b"), java_project("/ws/svc-a")]);
    let mut first = listing().unwrap();
    first.push(empty);
    let mut added = reg.auto_register(&vec![Some(first)]);
    added.sort();
    assert_eq!(added, vec!["svc-a".to_string(), "svc-b".to_string()]);
    assert!(reg.auto_register(&vec![listing()]).is_empty());
    assert_eq!(reg.len(), 2);
}

#[test]
fn auto_register_skips_root_already_registered_under_custom_id() {
    let mut reg = registry();
    reg.register(Some("custom".to_string()), &java_project("/ws/svc")).unwrap();
    assert!(reg.auto_register(&vec![Some(vec![java_project("/ws/svc")])]).is_empty());
    assert_eq!(reg.len(), 1);
    assert!(reg.get("svc").is_err());
}

#[test]
fn auto_register_ignores_unreadable_roots() {
    let mut reg = registry();
    assert!(reg.auto_register(&vec![None]).is_empty());
}

#[test]
fn derives_id_from_directory_name() {
    let mut reg = registry();
    let project = reg.register(None, &java_project("/tmp/My Service!")).unwrap();
    assert_eq!(project.id, "my-service");
    assert_eq!(derive_id(&path("/tmp/ÄPFEL")), "pfel");
}

#[test]
fn projects_are_listed_by_id() {
    let mut reg = registry();
    reg.register(Some("b".to_string()), &java_project("/tmp/b")).unwrap();
    reg.register(Some("a".to_string()), &java_project("/tmp/a")).unwrap();
    let ids: Vec<String> = reg.list().iter().map(|p: &Project| p.id.clone()).collect();
    assert_eq!(ids, vec!["a".to_string(), "b".to_string()]);
}

#[test]
fn unreadable_configuration_is_reported() {
    let source = ConfigSource::Malformed("expected a table".to_string());
    let err = ProjectRegistry::load(path("/cfg/projects.toml"), source).unwrap_err();
    assert_eq!(
        err.message(),
        "could not read registry config at /cfg/projects.toml: expected a table"
    );
}

#[test]
fn no_vcs_returns_none() {
    assert!(detect_revision(Vcs::of(false, false), &None, &None).is_none());
}

#[test]
fn detects_git_revision() {
    let vcs = Vcs::of(false, true);
    assert_eq!(vcs, Some(Vcs::Git));
    let rev =
        detect_revision(vcs, &Some("abc1234\n".to_string()), &Some("main\n".to_string())).unwrap();
    assert_eq!(rev.vcs, Vcs::Git);
    assert!(!rev.id.is_empty());
    assert_eq!(
        rev,
        Revision { vcs: Vcs::Git, id: "abc1234".to_string(), branch: Some("main".to_string()) }
    );
    assert_eq!(rev.key(), "git-abc1234");
}

#[test]
fn detached_heads_have_no_branch() {
    let id = Some("abc1234\n".to_string());
    let rev = detect_revision(Some(Vcs::Git), &id, &Some("HEAD\n".to_string())).unwrap();
    assert_eq!(rev.branch, None);
    assert_eq!(Vcs::of(true, true), Some(Vcs::Jj));
    assert!(detect_revision(Some(Vcs::Jj), &None, &None).is_none());
}

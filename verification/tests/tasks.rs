use henka::path::PathBuf;
use henka::tasks::{
    build_steps, bundle_jar, bundle_script, jdtls_plugins, script_path, status, task, usage,
    BuildStep, Ended, Task,
};

fn scripts(jdtls: bool, bundle: bool) -> Vec<String> {
    let mut out = Vec::new();
    for step in build_steps(jdtls, bundle) {
        if let BuildStep::Script(s) = step {
            out.push(s);
        }
    }
    out
}

#[test]
fn builds_fetch_what_is_missing() {
    assert_eq!(scripts(false, true), vec!["scripts/fetch-jdtls.sh".to_string()]);
    assert_eq!(scripts(true, false), vec!["jdtls-bundle/build.sh".to_string()]);
    assert!(scripts(true, true).is_empty());
    assert!(matches!(build_steps(true, true).last(), Some(BuildStep::Release)));
}

#[test]
fn commands_are_recognized() {
    let command = |s: &str| task(&Some(s.to_string()));
    assert!(matches!(task(&None), Task::Build));
    assert!(matches!(command("build"), Task::Build));
    assert!(matches!(command("jdtls"), Task::Jdtls));
    assert!(matches!(command("bundle"), Task::Bundle));
    assert!(matches!(command("--help"), Task::Help));
    match command("fly") {
        Task::Unknown(s) => assert_eq!(s, format!("unknown command `fly`\n\n{}", usage())),
        other => panic!("unexpected {other:?}"),
    }
}

#[test]
fn bundles_need_the_server() {
    assert!(bundle_script(true).is_ok());
    assert_eq!(
        bundle_script(false).unwrap_err(),
        "jdtls not found; run `cargo xtask jdtls` first"
    );
}

#[test]
fn failures_are_reported() {
    assert!(status("bash", &Ended::Success).is_ok());
    assert_eq!(status("bash", &Ended::Failure(Some(3))).unwrap_err(), "bash exited with 3");
    assert_eq!(status("bash", &Ended::Failure(None)).unwrap_err(), "bash exited with -1");
    assert_eq!(
        status("bash", &Ended::NotRun("no".to_string())).unwrap_err(),
        "failed to run bash: no"
    );
}

#[test]
fn places_in_a_checkout() {
    let root = PathBuf::new("/r");
    assert_eq!(jdtls_plugins(&root), PathBuf::new("/r/.cache/jdtls/plugins"));
    assert_eq!(bundle_jar(&root), PathBuf::new("/r/jdtls-bundle/henka-jdtls-bundle.jar"));
    assert_eq!(script_path(&root, "a.sh", true).unwrap(), PathBuf::new("/r/a.sh"));
    assert_eq!(script_path(&root, "a.sh", false).unwrap_err(), "missing build script: /r/a.sh");
}

//! Building a checkout: which steps a build takes.
use vstd::prelude::*;

use crate::path;
use crate::path::PathBuf;
use crate::text;
use crate::text::{cat2, cat3, cat4, same_text, signed_decimal_text};

verus! {

/// What can be asked for.
#[derive(Debug)]
pub enum Task {
    /// A full build.
    Build,
    /// The language server for Java.
    Jdtls,
    /// The delegate-command bundle.
    Bundle,
    /// How the tasks are used.
    Help,
    /// Something else; the text says what to do instead.
    Unknown(String),
}

/// What a [`Task`] says.
pub enum TaskView {
    Build,
    Jdtls,
    Bundle,
    Help,
    Unknown(Seq<char>),
}

impl View for Task {
    type V = TaskView;

    open spec fn view(&self) -> TaskView {
        match self {
            Task::Build => TaskView::Build,
            Task::Jdtls => TaskView::Jdtls,
            Task::Bundle => TaskView::Bundle,
            Task::Help => TaskView::Help,
            Task::Unknown(s) => TaskView::Unknown(s@),
        }
    }
}

/// How the tasks are used.
pub open spec fn usage_text() -> Seq<char> {
    "usage: cargo xtask <command>\n\ncommands:\n  build     full build: fetch jdtls if missing, build the bundle, cargo build --release\n  jdtls     fetch the jdtls distribution into .cache/jdtls\n  bundle    compile the jdtls delegate-command bundle\n"@
}

/// How the tasks are used.
pub fn usage() -> (r: &'static str)
    ensures
        r@ == usage_text(),
{
    "usage: cargo xtask <command>\n\ncommands:\n  build     full build: fetch jdtls if missing, build the bundle, cargo build --release\n  jdtls     fetch the jdtls distribution into .cache/jdtls\n  bundle    compile the jdtls delegate-command bundle\n"
}

/// The task that a command asks for. Without a command, a full build.
pub open spec fn task_of(command: Option<Seq<char>>) -> TaskView {
    match command {
        None => TaskView::Build,
        Some(c) => if c == "build"@ {
            TaskView::Build
        } else if c == "jdtls"@ {
            TaskView::Jdtls
        } else if c == "bundle"@ {
            TaskView::Bundle
        } else if c == "-h"@ || c == "--help"@ || c == "help"@ {
            TaskView::Help
        } else {
            TaskView::Unknown("unknown command `"@ + c + "`\n\n"@ + usage_text())
        },
    }
}

/// The task that a command asks for.
pub fn task(command: &Option<String>) -> (r: Task)
    ensures
        r@ == task_of(text::optional(*command)),
{
    let c = match command {
        Some(c) => c.as_str(),
        None => return Task::Build,
    };
    if same_text(c, "build") {
        Task::Build
    } else if same_text(c, "jdtls") {
        Task::Jdtls
    } else if same_text(c, "bundle") {
        Task::Bundle
    } else if same_text(c, "-h") || same_text(c, "--help") || same_text(c, "help") {
        Task::Help
    } else {
        Task::Unknown(cat4("unknown command `", c, "`\n\n", usage()))
    }
}

/// One step of a build.
#[derive(Debug)]
pub enum BuildStep {
    /// Say what is being done.
    Announce(String),
    /// Run a script of the checkout.
    Script(String),
    /// Build the release binary.
    Release,
}

/// What a [`BuildStep`] says.
pub enum BuildStepView {
    Announce(Seq<char>),
    Script(Seq<char>),
    Release,
}

impl View for BuildStep {
    type V = BuildStepView;

    open spec fn view(&self) -> BuildStepView {
        match self {
            BuildStep::Announce(s) => BuildStepView::Announce(s@),
            BuildStep::Script(s) => BuildStepView::Script(s@),
            BuildStep::Release => BuildStepView::Release,
        }
    }
}

/// The steps of a full build: the language server is fetched if it is not there,
/// which builds the bundle too; else the bundle is built if it is not there; and
/// the release binary is built in any case.
pub open spec fn full_build(jdtls: bool, bundle: bool) -> Seq<BuildStepView> {
    let first = if !jdtls {
        seq![
            BuildStepView::Announce("jdtls not found, fetching"@),
            BuildStepView::Script("scripts/fetch-jdtls.sh"@),
        ]
    } else if !bundle {
        seq![
            BuildStepView::Announce("building jdtls delegate-command bundle"@),
            BuildStepView::Script("jdtls-bundle/build.sh"@),
        ]
    } else {
        seq![BuildStepView::Announce("jdtls and bundle already present, skipping"@)]
    };
    first + seq![BuildStepView::Announce("building henka (release)"@), BuildStepView::Release]
}

/// The steps of a full build. `jdtls` and `bundle` say whether the language server
/// and the bundle are there.
pub fn build_steps(jdtls: bool, bundle: bool) -> (r: Vec<BuildStep>)
    ensures
        r@.map_values(|s: BuildStep| s@) == full_build(jdtls, bundle),
{
    let mut out: Vec<BuildStep> = Vec::new();
    if !jdtls {
        out.push(BuildStep::Announce("jdtls not found, fetching".to_owned()));
        out.push(BuildStep::Script("scripts/fetch-jdtls.sh".to_owned()));
    } else if !bundle {
        out.push(BuildStep::Announce("building jdtls delegate-command bundle".to_owned()));
        out.push(BuildStep::Script("jdtls-bundle/build.sh".to_owned()));
    } else {
        out.push(BuildStep::Announce("jdtls and bundle already present, skipping".to_owned()));
    }
    out.push(BuildStep::Announce("building henka (release)".to_owned()));
    out.push(BuildStep::Release);
    assert(out@.map_values(|s: BuildStep| s@) =~= full_build(jdtls, bundle));
    out
}

/// The script that builds the bundle, which needs the language server.
pub fn bundle_script(jdtls: bool) -> (r: Result<String, String>)
    ensures
        if jdtls {
            r matches Ok(s) && s@ == "jdtls-bundle/build.sh"@
        } else {
            r matches Err(e) && e@ == "jdtls not found; run `cargo xtask jdtls` first"@
        },
{
    if jdtls {
        Ok("jdtls-bundle/build.sh".to_owned())
    } else {
        Err("jdtls not found; run `cargo xtask jdtls` first".to_owned())
    }
}

/// Where the language server is in a checkout.
pub fn jdtls_plugins(root: &PathBuf) -> (r: PathBuf)
    ensures
        r@ == path::joined(root@, ".cache/jdtls/plugins"@),
{
    root.join(&PathBuf::new(".cache/jdtls/plugins"))
}

/// Where the bundle is in a checkout.
pub fn bundle_jar(root: &PathBuf) -> (r: PathBuf)
    ensures
        r@ == path::joined(root@, "jdtls-bundle/henka-jdtls-bundle.jar"@),
{
    root.join(&PathBuf::new("jdtls-bundle/henka-jdtls-bundle.jar"))
}

/// The script at a place in a checkout, if a file is there.
pub fn script_path(root: &PathBuf, rel: &str, is_file: bool) -> (r: Result<PathBuf, String>)
    ensures
        if is_file {
            r matches Ok(p) && p@ == path::joined(root@, rel@)
        } else {
            r matches Err(e) && e@ == "missing build script: "@ + path::joined(root@, rel@)
        },
{
    let script = root.join(&PathBuf::new(rel));
    if is_file {
        Ok(script)
    } else {
        Err(cat2("missing build script: ", script.as_str()))
    }
}

/// How a program ended.
#[derive(Debug)]
pub enum Ended {
    /// It could not be run; the text says why.
    NotRun(String),
    /// It ended well.
    Success,
    /// It ended with this code, or without one.
    Failure(Option<i32>),
}

/// What a program that did not end well is reported as.
pub open spec fn failure_text(program: Seq<char>, ended: Ended) -> Option<Seq<char>> {
    match ended {
        Ended::NotRun(why) => Some("failed to run "@ + program + ": "@ + why@),
        Ended::Success => None,
        Ended::Failure(code) => Some(
            program + " exited with "@ + text::signed_decimal(
                match code {
                    Some(c) => c as int,
                    None => -1,
                },
            ),
        ),
    }
}

/// Whether a program ended well, else what to report.
pub fn status(program: &str, ended: &Ended) -> (r: Result<(), String>)
    ensures
        match failure_text(program@, *ended) {
            Some(want) => r matches Err(e) && e@ == want,
            None => r is Ok,
        },
{
    match ended {
        Ended::NotRun(why) => Err(cat4("failed to run ", program, ": ", why.as_str())),
        Ended::Success => Ok(()),
        Ended::Failure(code) => {
            let n: i64 = match code {
                Some(c) => *c as i64,
                None => -1,
            };
            Err(cat3(program, " exited with ", signed_decimal_text(n).as_str()))
        },
    }
}

/// A full build ends with the release binary, and runs a script exactly where
/// something is missing.
pub proof fn builds_fetch_what_is_missing(jdtls: bool, bundle: bool)
    ensures
        full_build(jdtls, bundle).last() is Release,
        (exists|i: int|
            0 <= i < full_build(jdtls, bundle).len() && (#[trigger] full_build(
                jdtls,
                bundle,
            )[i]) is Script) == (!jdtls || !bundle),
{
    let steps = full_build(jdtls, bundle);
    if !jdtls || !bundle {
        assert(steps[1] is Script);
    }
}

/// A command that there is asks for the task of its name, and without a command there
/// is a full build. Any other command is answered with its own name and with how the
/// tasks are used.
pub proof fn commands_ask_for_their_tasks(c: Seq<char>)
    ensures
        task_of(None) == task_of(Some("build"@)),
        task_of(Some(c)) is Build <==> c == "build"@,
        task_of(Some(c)) is Jdtls <==> c == "jdtls"@,
        task_of(Some(c)) is Bundle <==> c == "bundle"@,
        task_of(Some(c)) is Help <==> c == "help"@ || c == "--help"@ || c == "-h"@,
        task_of(Some(c)) matches TaskView::Unknown(why) ==> text::contains_text(why, c)
            && text::finishes_with(why, usage_text()),
{
    reveal_strlit("build");
    reveal_strlit("jdtls");
    reveal_strlit("bundle");
    reveal_strlit("-h");
    reveal_strlit("--help");
    reveal_strlit("help");
    assert("build"@.len() == 5);
    assert("jdtls"@.len() == 5);
    assert("bundle"@.len() == 6);
    assert("-h"@.len() == 2);
    assert("--help"@.len() == 6);
    assert("help"@.len() == 4);
    assert("build"@[0] != "jdtls"@[0]);
    assert("bundle"@[0] != "--help"@[0]);
    let a = "unknown command `"@;
    let b = "`\n\n"@;
    let all = a + c + b + usage_text();
    assert(all =~= a + c + (b + usage_text()));
    text::lemma_stands_between(a, c, b + usage_text());
    assert(all.subrange(all.len() - usage_text().len(), all.len() as int) =~= usage_text());
}

/// A program that ends well has nothing reported of it. Any other has its name
/// reported, and why it could not be run, or the code that it ended with.
pub proof fn failures_are_reported(program: Seq<char>, ended: Ended)
    ensures
        failure_text(program, ended) is None <==> ended is Success,
        failure_text(program, ended) matches Some(told) ==> text::contains_text(told, program),
        ended matches Ended::NotRun(why) ==> text::finishes_with(
            failure_text(program, ended).unwrap(),
            why@,
        ),
        ended matches Ended::Failure(Some(code)) ==> text::finishes_with(
            failure_text(program, ended).unwrap(),
            " "@ + text::signed_decimal(code as int),
        ),
{
    match ended {
        Ended::NotRun(why) => {
            let a = "failed to run "@;
            let all = a + program + ": "@ + why@;
            assert(all =~= a + program + (": "@ + why@));
            text::lemma_stands_between(a, program, ": "@ + why@);
            assert(all.subrange(all.len() - why@.len(), all.len() as int) =~= why@);
        },
        Ended::Success => {},
        Ended::Failure(code) => {
            let all = failure_text(program, ended).unwrap();
            let back = all.skip(program.len() as int);
            assert(all =~= Seq::<char>::empty() + program + back);
            text::lemma_stands_between(Seq::empty(), program, back);
            if let Some(c) = code {
                reveal_strlit(" exited with ");
                reveal_strlit(" ");
                let last = " "@ + text::signed_decimal(c as int);
                assert(all.subrange(all.len() - last.len(), all.len() as int) =~= last);
            }
        },
    }
}

} // verus!

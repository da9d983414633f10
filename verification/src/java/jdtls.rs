//! Finding, launching and greeting the Eclipse JDT language server.
use vstd::prelude::*;

use crate::java::error::{JavaError, JavaErrorView};
use crate::json;
use crate::json::{Items, Json, JsonView, Members};
use crate::language;
use crate::language::Language;
use crate::locate;
use crate::locate::{first_present, list_paths, Probed};
use crate::lsp::capabilities;
use crate::lsp::capabilities::{
    code_action_support, dynamic, flagged, initialize_params, workspace_edit_support,
};
use crate::lsp::session;
use crate::lsp::session::LspSession;
use crate::lsp::uri;
use crate::path;
use crate::path::PathBuf;
use crate::provider::LanguageSession;
use crate::text;
use crate::text::{has_prefix, has_suffix, same_text};

verus! {

// ---------------------------------------------------------------------------
// Finding a distribution
// ---------------------------------------------------------------------------

/// A directory that may hold a distribution of the server.
#[derive(Debug)]
pub struct Distribution {
    /// The directory.
    pub home: PathBuf,
    /// The names in its directory `plugins`, if that can be listed.
    pub plugins: Option<Vec<String>>,
}

/// Whether a file name is that of the launcher.
pub open spec fn is_launcher(name: Seq<char>) -> bool {
    text::begins_with(name, "org.eclipse.equinox.launcher_"@) && text::finishes_with(name, ".jar"@)
}

/// The first of a list of file names that is that of the launcher.
pub open spec fn first_launcher(names: Seq<Seq<char>>) -> Option<Seq<char>>
    decreases names.len(),
{
    if names.len() == 0 {
        None
    } else {
        match first_launcher(names.drop_last()) {
            Some(name) => Some(name),
            None => if is_launcher(names.last()) {
                Some(names.last())
            } else {
                None
            },
        }
    }
}

/// The names that a listing gives, if there is one.
pub open spec fn listing_view(plugins: Option<Vec<String>>) -> Option<Seq<Seq<char>>> {
    match plugins {
        Some(names) => Some(text::texts(names@)),
        None => None,
    }
}

/// The launcher of a distribution: the first of its plugins that is named so.
pub open spec fn launcher_of(home: Seq<char>, plugins: Option<Seq<Seq<char>>>) -> Option<Seq<char>> {
    match plugins {
        Some(names) => match first_launcher(names) {
            Some(name) => Some(path::joined(path::joined(home, "plugins"@), name)),
            None => None,
        },
        None => None,
    }
}

/// The launcher of a distribution, if it has one.
pub fn launcher_in(home: &PathBuf, plugins: &Option<Vec<String>>) -> (r: Option<PathBuf>)
    ensures
        path::optional(r) == launcher_of(home@, listing_view(*plugins)),
{
    let names = match plugins {
        Some(names) => names,
        None => return None,
    };
    let ghost all = text::texts(names@);
    let mut i: usize = 0;
    while i < names.len()
        invariant
            i <= names@.len(),
            all == text::texts(names@),
            first_launcher(all.take(i as int)) is None,
            listing_view(*plugins) == Some(all),
        decreases names@.len() - i,
    {
        let name = names[i].as_str();
        assert(all.take(i + 1).drop_last() =~= all.take(i as int));
        if has_prefix(name, "org.eclipse.equinox.launcher_") && has_suffix(name, ".jar") {
            proof {
                assert(first_launcher(all.take(i + 1)) == Some(name@));
                lemma_first_launcher_stays(all, i + 1);
            }
            return Some(home.join(&PathBuf::new("plugins")).join(&PathBuf::new(name)));
        }
        i += 1;
    }
    assert(all.take(i as int) =~= all);
    None
}

/// What is found among the first names is found among all.
proof fn lemma_first_launcher_stays(names: Seq<Seq<char>>, n: int)
    requires
        0 <= n <= names.len(),
        first_launcher(names.take(n)) is Some,
    ensures
        first_launcher(names) == first_launcher(names.take(n)),
    decreases names.len(),
{
    if n < names.len() {
        assert(names.drop_last().take(n) =~= names.take(n));
        lemma_first_launcher_stays(names.drop_last(), n);
    } else {
        assert(names.take(n) =~= names);
    }
}

/// Whether a directory holds a distribution.
pub open spec fn complete(place: Distribution) -> bool {
    launcher_of(place.home@, listing_view(place.plugins)) is Some
}

/// The place of the first directory that holds a distribution.
pub open spec fn first_complete(places: Seq<Distribution>) -> Option<int>
    decreases places.len(),
{
    if places.len() == 0 {
        None
    } else {
        match first_complete(places.drop_last()) {
            Some(i) => Some(i),
            None => if complete(places.last()) {
                Some(places.len() - 1)
            } else {
                None
            },
        }
    }
}

/// The directories of a list.
pub open spec fn homes(places: Seq<Distribution>) -> Seq<Seq<char>> {
    places.map_values(|p: Distribution| p.home@)
}

/// The directories that may hold a distribution, in the order in which they are
/// looked at.
pub open spec fn candidate_homes(jdtls_home: Option<Seq<char>>, cache: Seq<char>) -> Seq<Seq<char>> {
    let usual = Seq::<Seq<char>>::empty().push(".cache/jdtls"@).push(
        path::joined(cache, "jdtls"@),
    );
    match jdtls_home {
        Some(home) => Seq::<Seq<char>>::empty().push(home) + usual,
        None => usual,
    }
}

/// The directories that may hold a distribution, in the order in which they are
/// looked at. `jdtls_home` is `$JDTLS_HOME`, and `cache` is the cache directory.
pub fn candidates(jdtls_home: &Option<String>, cache: &PathBuf) -> (r: Vec<PathBuf>)
    ensures
        path::texts(r@) == candidate_homes(text::optional(*jdtls_home), cache@),
{
    let mut out: Vec<PathBuf> = Vec::new();
    if let Some(home) = jdtls_home {
        out.push(PathBuf::new(home.as_str()));
    }
    out.push(PathBuf::new(".cache/jdtls"));
    out.push(cache.join(&PathBuf::new("jdtls")));
    assert(path::texts(out@) =~= candidate_homes(text::optional(*jdtls_home), cache@));
    out
}

/// What is missing from a distribution without a launcher.
pub open spec fn no_launcher(home: Seq<char>) -> JavaErrorView {
    JavaErrorView::JdtlsIncomplete(home, "no plugins/org.eclipse.equinox.launcher_*.jar"@)
}

/// The operating system and the processor.
#[derive(Debug, Clone, Copy, PartialEq, Eq, Structural)]
pub enum Platform {
    /// macOS on ARM.
    MacArm,
    /// macOS on another processor.
    Mac,
    /// Windows.
    Windows,
    /// Linux, or another system, on ARM.
    LinuxArm,
    /// Linux, or another system, on another processor.
    Linux,
}

/// The names of the configuration directories for a platform, the best first.
pub open spec fn config_names(platform: Platform) -> Seq<Seq<char>> {
    match platform {
        Platform::MacArm => seq!["config_mac_arm"@, "config_mac"@],
        Platform::Mac => seq!["config_mac"@],
        Platform::Windows => seq!["config_win"@],
        Platform::LinuxArm => seq!["config_linux_arm"@, "config_linux"@],
        Platform::Linux => seq!["config_linux"@],
    }
}

impl Platform {
    /// The names of the configuration directories for the platform, the best
    /// first.
    pub fn config_names(self) -> (r: Vec<String>)
        ensures
            text::texts(r@) == config_names(self),
    {
        let mut out: Vec<String> = Vec::new();
        match self {
            Platform::MacArm => {
                out.push("config_mac_arm".to_owned());
                out.push("config_mac".to_owned());
            },
            Platform::Mac => out.push("config_mac".to_owned()),
            Platform::Windows => out.push("config_win".to_owned()),
            Platform::LinuxArm => {
                out.push("config_linux_arm".to_owned());
                out.push("config_linux".to_owned());
            },
            Platform::Linux => out.push("config_linux".to_owned()),
        }
        assert(text::texts(out@) =~= config_names(self));
        out
    }
}

/// The first of the names that is one of the directories.
pub open spec fn first_listed(names: Seq<Seq<char>>, dirs: Seq<Seq<char>>) -> Option<Seq<char>>
    decreases names.len(),
{
    if names.len() == 0 {
        None
    } else if dirs.contains(names[0]) {
        Some(names[0])
    } else {
        first_listed(names.drop_first(), dirs)
    }
}

/// Whether a list holds a text.
fn holds(dirs: &Vec<String>, name: &str) -> (r: bool)
    ensures
        r == text::texts(dirs@).contains(name@),
{
    let mut i: usize = 0;
    while i < dirs.len()
        invariant
            i <= dirs@.len(),
            forall|j: int| 0 <= j < i ==> text::texts(dirs@)[j] != name@,
        decreases dirs@.len() - i,
    {
        if same_text(dirs[i].as_str(), name) {
            assert(text::texts(dirs@)[i as int] == name@);
            return true;
        }
        i += 1;
    }
    false
}

/// A distribution of the server.
#[derive(Debug)]
pub struct JdtlsInstall {
    home: PathBuf,
}

impl View for JdtlsInstall {
    type V = Seq<char>;

    closed spec fn view(&self) -> Seq<char> {
        self.home@
    }
}

impl JdtlsInstall {
    /// The first directory that holds a distribution.
    pub fn locate(places: &Vec<Distribution>) -> (r: Result<JdtlsInstall, JavaError>)
        ensures
            match first_complete(places@) {
                Some(i) => r matches Ok(install) && install@ == places@[i].home@,
                None => r matches Err(e) && e@ == JavaErrorView::JdtlsNotFound(
                    locate::listed(homes(places@)),
                ),
            },
    {
        let mut looked: Vec<PathBuf> = Vec::new();
        let mut i: usize = 0;
        while i < places.len()
            invariant
                i <= places@.len(),
                first_complete(places@.take(i as int)) is None,
                path::texts(looked@) == homes(places@).take(i as int),
            decreases places@.len() - i,
        {
            assert(places@.take(i + 1).drop_last() =~= places@.take(i as int));
            if launcher_in(&places[i].home, &places[i].plugins).is_some() {
                proof {
                    assert(first_complete(places@.take(i + 1)) == Some(i as int));
                    lemma_first_complete_stays(places@, i + 1);
                }
                return Ok(JdtlsInstall { home: places[i].home.clone() });
            }
            let ghost before = looked@;
            looked.push(places[i].home.clone());
            assert(path::texts(looked@) =~= path::texts(before).push(places@[i as int].home@));
            assert(homes(places@).take(i + 1) =~= homes(places@).take(i as int).push(
                places@[i as int].home@,
            ));
            i += 1;
        }
        assert(places@.take(i as int) =~= places@);
        assert(homes(places@).take(i as int) =~= homes(places@));
        Err(JavaError::JdtlsNotFound(list_paths(&looked)))
    }

    /// The distribution in one directory.
    pub fn at(place: &Distribution) -> (r: Result<JdtlsInstall, JavaError>)
        ensures
            if complete(*place) {
                r matches Ok(install) && install@ == place.home@
            } else {
                r matches Err(e) && e@ == no_launcher(place.home@)
            },
            r is Ok <==> (listing_view(place.plugins) matches Some(names) && exists|i: int|
                0 <= i < names.len() && is_launcher(#[trigger] names[i])),
    {
        proof {
            if let Some(names) = listing_view(place.plugins) {
                launcher_is_found_when_listed(place.home@, names);
            }
        }
        if launcher_in(&place.home, &place.plugins).is_some() {
            Ok(JdtlsInstall { home: place.home.clone() })
        } else {
            Err(
                JavaError::JdtlsIncomplete(
                    place.home.clone(),
                    "no plugins/org.eclipse.equinox.launcher_*.jar".to_owned(),
                ),
            )
        }
    }

    /// The directory of the distribution.
    pub fn home(&self) -> (r: &PathBuf)
        ensures
            r@ == self@,
    {
        &self.home
    }

    /// The launcher, by the names in the directory `plugins`.
    pub fn launcher_jar(&self, plugins: &Option<Vec<String>>) -> (r: Result<PathBuf, JavaError>)
        ensures
            match launcher_of(self@, listing_view(*plugins)) {
                Some(launcher) => r matches Ok(p) && p@ == launcher,
                None => r matches Err(e) && e@ == no_launcher(self@),
            },
            r is Ok <==> (listing_view(*plugins) matches Some(names) && exists|i: int|
                0 <= i < names.len() && is_launcher(#[trigger] names[i])),
            r matches Ok(p) ==> exists|i: int|
                0 <= i < listing_view(*plugins)->0.len() && is_launcher(
                    #[trigger] listing_view(*plugins)->0[i],
                ) && p@ == path::joined(
                    path::joined(self@, "plugins"@),
                    listing_view(*plugins)->0[i],
                ),
    {
        proof {
            if let Some(names) = listing_view(*plugins) {
                launcher_is_found_when_listed(self@, names);
            }
        }
        match launcher_in(&self.home, plugins) {
            Some(p) => Ok(p),
            None => Err(
                JavaError::JdtlsIncomplete(
                    self.home.clone(),
                    "no plugins/org.eclipse.equinox.launcher_*.jar".to_owned(),
                ),
            ),
        }
    }

    /// The configuration directory for a platform, by the names of the
    /// directories in the distribution.
    pub fn platform_config(&self, platform: Platform, dirs: &Vec<String>) -> (r: Result<
        PathBuf,
        JavaError,
    >)
        ensures
            match first_listed(config_names(platform), text::texts(dirs@)) {
                Some(name) => r matches Ok(p) && p@ == path::joined(self@, name),
                None => r matches Err(e) && e@ == JavaErrorView::JdtlsIncomplete(
                    self@,
                    "no platform config_* directory"@,
                ),
            },
    {
        let names = platform.config_names();
        let ghost all = text::texts(names@);
        let mut i: usize = 0;
        assert(all.skip(0) =~= all);
        while i < names.len()
            invariant
                i <= names@.len(),
                all == text::texts(names@),
                all == config_names(platform),
                first_listed(all, text::texts(dirs@)) == first_listed(
                    all.skip(i as int),
                    text::texts(dirs@),
                ),
            decreases names@.len() - i,
        {
            assert(all.skip(i as int).drop_first() =~= all.skip(i + 1));
            if holds(dirs, names[i].as_str()) {
                return Ok(self.home.join(&PathBuf::new(names[i].as_str())));
            }
            i += 1;
        }
        Err(
            JavaError::JdtlsIncomplete(
                self.home.clone(),
                "no platform config_* directory".to_owned(),
            ),
        )
    }
}

/// What is found among the first directories is found among all.
proof fn lemma_first_complete_stays(places: Seq<Distribution>, n: int)
    requires
        0 <= n <= places.len(),
        first_complete(places.take(n)) is Some,
    ensures
        first_complete(places) == first_complete(places.take(n)),
    decreases places.len(),
{
    if n < places.len() {
        assert(places.drop_last().take(n) =~= places.take(n));
        lemma_first_complete_stays(places.drop_last(), n);
    } else {
        assert(places.take(n) =~= places);
    }
}

/// The places where the delegate-command bundle may be, in the order in which
/// they are looked at.
pub open spec fn bundle_places(explicit: Option<Seq<char>>, cache: Seq<char>) -> Seq<Seq<char>> {
    let usual = Seq::<Seq<char>>::empty().push("jdtls-bundle/henka-jdtls-bundle.jar"@).push(
        path::joined(cache, "henka-jdtls-bundle.jar"@),
    );
    match explicit {
        Some(p) => Seq::<Seq<char>>::empty().push(p) + usual,
        None => usual,
    }
}

/// The places where the delegate-command bundle may be, in the order in which
/// they are looked at. `explicit` is `$HENKA_JDTLS_BUNDLE`, and `cache` is the
/// cache directory.
pub fn bundle_candidates(explicit: &Option<String>, cache: &PathBuf) -> (r: Vec<PathBuf>)
    ensures
        path::texts(r@) == bundle_places(text::optional(*explicit), cache@),
{
    let mut out: Vec<PathBuf> = Vec::new();
    if let Some(p) = explicit {
        out.push(PathBuf::new(p.as_str()));
    }
    out.push(PathBuf::new("jdtls-bundle/henka-jdtls-bundle.jar"));
    out.push(cache.join(&PathBuf::new("henka-jdtls-bundle.jar")));
    assert(path::texts(out@) =~= bundle_places(text::optional(*explicit), cache@));
    out
}

/// The delegate-command bundle: the first place at which a file is. Without it, the
/// refactorings that go through it are not available.
pub fn locate_bundle(places: &Vec<Probed>) -> (r: Option<PathBuf>)
    ensures
        path::optional(r) == locate::first_present_path(places@),
{
    first_present(places)
}

/// Where the Java runtime is in its home directory.
pub open spec fn java_in(home: Seq<char>) -> Seq<char> {
    path::joined(path::joined(home, "bin"@), "java"@)
}

/// Where the Java runtime may be. `java_home` is `$JAVA_HOME`.
pub fn java_candidate(java_home: &Option<String>) -> (r: Option<PathBuf>)
    ensures
        path::optional(r) == match *java_home {
            Some(home) => Some(java_in(home@)),
            None => None,
        },
{
    match java_home {
        Some(home) => Some(
            PathBuf::new(home.as_str()).join(&PathBuf::new("bin")).join(&PathBuf::new("java")),
        ),
        None => None,
    }
}

/// The program that runs Java.
pub open spec fn java_program(candidate: Option<Probed>) -> Seq<char> {
    match candidate {
        Some(p) => if p.present {
            p.path@
        } else {
            "java"@
        },
        None => "java"@,
    }
}

/// The program that runs Java: the candidate if there is a file, else `java`, which
/// is searched for when it is run.
pub fn java_executable(candidate: &Option<Probed>) -> (r: String)
    ensures
        r@ == java_program(*candidate),
        r@ == match *candidate {
            Some(p) => if p.present {
                p.path@
            } else {
                "java"@
            },
            None => "java"@,
        },
{
    match candidate {
        Some(p) => if p.present {
            p.path.as_str().to_owned()
        } else {
            "java".to_owned()
        },
        None => "java".to_owned(),
    }
}

// ---------------------------------------------------------------------------
// Launching
// ---------------------------------------------------------------------------

/// Where a session keeps its own configuration.
pub fn config_dir(data_dir: &PathBuf) -> (r: PathBuf)
    ensures
        r@ == path::joined(data_dir@, "config"@),
{
    data_dir.join(&PathBuf::new("config"))
}

/// The arguments of the Java runtime.
pub open spec fn launch_arguments(
    launcher: Seq<char>,
    config_dir: Seq<char>,
    data_dir: Seq<char>,
) -> Seq<Seq<char>> {
    seq![
        "-Declipse.application=org.eclipse.jdt.ls.core.id1"@,
        "-Dosgi.bundles.defaultStartLevel=4"@,
        "-Declipse.product=org.eclipse.jdt.ls.core.product"@,
        "-Dlog.level=ALL"@,
        "-Xmx1G"@,
        "--add-modules=ALL-SYSTEM"@,
        "--add-opens"@,
        "java.base/java.util=ALL-UNNAMED"@,
        "--add-opens"@,
        "java.base/java.lang=ALL-UNNAMED"@,
        "-jar"@,
        launcher,
        "-configuration"@,
        config_dir,
        "-data"@,
        data_dir,
    ]
}

/// The arguments of the Java runtime.
pub fn launch_args(launcher: &PathBuf, config_dir: &PathBuf, data_dir: &PathBuf) -> (r: Vec<String>)
    ensures
        text::texts(r@) == launch_arguments(launcher@, config_dir@, data_dir@),
{
    let mut out: Vec<String> = Vec::new();
    out.push("-Declipse.application=org.eclipse.jdt.ls.core.id1".to_owned());
    out.push("-Dosgi.bundles.defaultStartLevel=4".to_owned());
    out.push("-Declipse.product=org.eclipse.jdt.ls.core.product".to_owned());
    out.push("-Dlog.level=ALL".to_owned());
    out.push("-Xmx1G".to_owned());
    out.push("--add-modules=ALL-SYSTEM".to_owned());
    out.push("--add-opens".to_owned());
    out.push("java.base/java.util=ALL-UNNAMED".to_owned());
    out.push("--add-opens".to_owned());
    out.push("java.base/java.lang=ALL-UNNAMED".to_owned());
    out.push("-jar".to_owned());
    out.push(launcher.as_str().to_owned());
    out.push("-configuration".to_owned());
    out.push(config_dir.as_str().to_owned());
    out.push("-data".to_owned());
    out.push(data_dir.as_str().to_owned());
    assert(text::texts(out@) =~= launch_arguments(launcher@, config_dir@, data_dir@));
    out
}

// ---------------------------------------------------------------------------
// Greeting
// ---------------------------------------------------------------------------

/// Who works out the refactorings.
#[derive(Debug)]
pub enum Profile {
    /// The server alone, which answers with edits. Parameterized refactorings go
    /// through the extensions in these files.
    Headless {
        /// The extensions to load.
        bundles: Vec<PathBuf>,
    },
    /// The server together with its client, which runs commands for it.
    Assisted,
}

/// What the server is told about the client beyond the protocol. A server whose
/// client works alone is not told of the advanced refactorings: it would leave
/// them to the client.
pub open spec fn client_options(profile: Profile) -> JsonView {
    match profile {
        Profile::Headless { bundles } => {
            let plain = json::no_members().push(
                (
                    "extendedClientCapabilities"@,
                    JsonView::Object(
                        json::no_members().push(("classFileContentsSupport"@, JsonView::Bool(true))),
                    ),
                ),
            );
            if bundles@.len() > 0 {
                JsonView::Object(
                    plain.push(
                        (
                            "bundles"@,
                            JsonView::Array(
                                bundles@.map_values(|b: PathBuf| JsonView::Text(b@)),
                            ),
                        ),
                    ),
                )
            } else {
                JsonView::Object(plain)
            }
        },
        Profile::Assisted => JsonView::Object(
            json::no_members().push(("extendedClientCapabilities"@, assisted_capabilities())),
        ),
    }
}

/// What a client that works with the server can do.
pub open spec fn assisted_capabilities() -> JsonView {
    JsonView::Object(
        json::no_members().push(("classFileContentsSupport"@, JsonView::Bool(true))).push(
            ("advancedExtractRefactoringSupport"@, JsonView::Bool(true)),
        ).push(("advancedOrganizeImportsSupport"@, JsonView::Bool(true))).push(
            ("moveRefactoringSupport"@, JsonView::Bool(true)),
        ).push(("resolveAdditionalTextEditsSupport"@, JsonView::Bool(true))).push(
            ("advancedIntroduceParameterRefactoringSupport"@, JsonView::Bool(true)),
        ).push(("extractInterfaceSupport"@, JsonView::Bool(true))).push(
            ("executeClientCommandSupport"@, JsonView::Bool(true)),
        ).push(
            (
                "inferSelectionSupport"@,
                JsonView::Array(
                    json::no_items().push(JsonView::Text("extractMethod"@)).push(
                        JsonView::Text("extractVariable"@),
                    ).push(JsonView::Text("extractConstant"@)).push(
                        JsonView::Text("extractField"@),
                    ),
                ),
            ),
        ),
    )
}

/// What the client can do with a workspace.
pub open spec fn workspace_capabilities() -> Seq<(Seq<char>, JsonView)> {
    json::no_members().push(("applyEdit"@, JsonView::Bool(true))).push(
        ("workspaceEdit"@, capabilities::workspace_edit_json()),
    ).push(("configuration"@, JsonView::Bool(true))).push(
        ("executeCommand"@, capabilities::dynamic_json()),
    ).push(("symbol"@, capabilities::dynamic_json()))
}

/// What the client can do with a document.
pub open spec fn document_capabilities() -> Seq<(Seq<char>, JsonView)> {
    json::no_members().push(
        (
            "synchronization"@,
            JsonView::Object(
                json::no_members().push(("didSave"@, JsonView::Bool(true))).push(
                    ("dynamicRegistration"@, JsonView::Bool(true)),
                ),
            ),
        ),
    ).push(("rename"@, capabilities::flagged_json("prepareSupport"@))).push(
        ("references"@, capabilities::dynamic_json()),
    ).push(("definition"@, capabilities::dynamic_json())).push(
        ("implementation"@, capabilities::dynamic_json()),
    ).push(
        ("documentSymbol"@, capabilities::flagged_json("hierarchicalDocumentSymbolSupport"@)),
    ).push(("callHierarchy"@, capabilities::dynamic_json())).push(
        ("typeHierarchy"@, capabilities::dynamic_json()),
    ).push(("codeAction"@, capabilities::code_action_support_json()))
}

/// The strings of a list of paths.
fn bundle_list(bundles: &Vec<PathBuf>) -> (r: Json)
    ensures
        r@ == JsonView::Array(bundles@.map_values(|b: PathBuf| JsonView::Text(b@))),
{
    let mut names: Vec<String> = Vec::new();
    let mut i: usize = 0;
    while i < bundles.len()
        invariant
            i <= bundles@.len(),
            names@.len() == i,
            forall|j: int| 0 <= j < i ==> names@[j]@ == bundles@[j]@,
        decreases bundles@.len() - i,
    {
        names.push(bundles[i].as_str().to_owned());
        i += 1;
    }
    let r = Json::texts(&names);
    assert(names@.map_values(|s: String| JsonView::Text(s@)) =~= bundles@.map_values(
        |b: PathBuf| JsonView::Text(b@),
    ));
    r
}

/// What the server is told about the client beyond the protocol.
fn options(profile: &Profile) -> (r: Json)
    ensures
        r@ == client_options(*profile),
{
    match profile {
        Profile::Headless { bundles } => {
            let plain = Members::new().with(
                "extendedClientCapabilities",
                Members::new().with("classFileContentsSupport", Json::Bool(true)).done(),
            );
            if bundles.len() > 0 {
                plain.with("bundles", bundle_list(bundles)).done()
            } else {
                plain.done()
            }
        },
        Profile::Assisted => {
            let selections = Items::new().with(Json::text("extractMethod")).with(
                Json::text("extractVariable"),
            ).with(Json::text("extractConstant")).with(Json::text("extractField")).done();
            let able = Members::new().with("classFileContentsSupport", Json::Bool(true)).with(
                "advancedExtractRefactoringSupport",
                Json::Bool(true),
            ).with("advancedOrganizeImportsSupport", Json::Bool(true)).with(
                "moveRefactoringSupport",
                Json::Bool(true),
            ).with("resolveAdditionalTextEditsSupport", Json::Bool(true)).with(
                "advancedIntroduceParameterRefactoringSupport",
                Json::Bool(true),
            ).with("extractInterfaceSupport", Json::Bool(true)).with(
                "executeClientCommandSupport",
                Json::Bool(true),
            ).with("inferSelectionSupport", selections).done();
            Members::new().with("extendedClientCapabilities", able).done()
        },
    }
}

/// The parameters of `initialize`.
pub fn initialize(process_id: u32, root: &PathBuf, profile: &Profile) -> (r: Json)
    ensures
        r@ == capabilities::initialize_json(
            process_id,
            root@,
            workspace_capabilities(),
            document_capabilities(),
            client_options(*profile),
        ),
{
    let workspace = Members::new().with("applyEdit", Json::Bool(true)).with(
        "workspaceEdit",
        workspace_edit_support(),
    ).with("configuration", Json::Bool(true)).with("executeCommand", dynamic()).with(
        "symbol",
        dynamic(),
    );
    let synchronization = Members::new().with("didSave", Json::Bool(true)).with(
        "dynamicRegistration",
        Json::Bool(true),
    ).done();
    let document = Members::new().with("synchronization", synchronization).with(
        "rename",
        flagged("prepareSupport"),
    ).with("references", dynamic()).with("definition", dynamic()).with(
        "implementation",
        dynamic(),
    ).with("documentSymbol", flagged("hierarchicalDocumentSymbolSupport")).with(
        "callHierarchy",
        dynamic(),
    ).with("typeHierarchy", dynamic()).with("codeAction", code_action_support());
    initialize_params(process_id, root, workspace, document, options(profile))
}

/// How many seconds the import of a project may take before requests are served
/// all the same.
pub const READY_TIMEOUT_SECONDS: u64 = 180;

/// Whether a notification says that the project has been imported.
pub open spec fn says_ready(method: Seq<char>, params: JsonView) -> bool {
    method == "language/status"@ && (params.get_text("type"@) == Some("Started"@)
        || params.get_text("type"@) == Some("ServiceReady"@))
}

/// Whether a notification says that the project has been imported.
pub fn is_ready(method: &str, params: &Json) -> (r: bool)
    ensures
        r == says_ready(method@, params@),
{
    if !same_text(method, "language/status") {
        return false;
    }
    match params.get_str("type") {
        Some(kind) => same_text(kind, "Started") || same_text(kind, "ServiceReady"),
        None => false,
    }
}

// ---------------------------------------------------------------------------
// The session
// ---------------------------------------------------------------------------

/// The session of one Java project.
#[derive(Debug)]
pub struct JdtlsSession {
    /// The documents of the session.
    pub session: LspSession,
}

/// Source extensions and the language ids of their documents.
pub open spec fn java_langs() -> Seq<(Seq<char>, Seq<char>)> {
    seq![("java"@, "java"@)]
}

impl JdtlsSession {
    /// A session for `root` in which nothing is open.
    pub fn start(root: &PathBuf) -> (r: JdtlsSession)
        ensures
            r.session.wf(),
            r.session@ == session::fresh(root@, java_langs()),
    {
        let mut langs: Vec<(String, String)> = Vec::new();
        langs.push(("java".to_owned(), "java".to_owned()));
        assert(session::lang_views(langs@) =~= java_langs());
        JdtlsSession { session: LspSession::new(root, langs) }
    }

    /// The URI of a path, resolved against the project root.
    pub fn uri_for(&self, path: &PathBuf) -> (r: String)
        ensures
            r@ == uri::uri_of(self.session@.abs(path@)),
    {
        self.session.uri_for(path)
    }
}

impl LanguageSession for JdtlsSession {
    fn language(&self) -> (r: Language)
        ensures
            r == Language::Java,
    {
        Language::Java
    }

    fn root(&self) -> (r: Option<&PathBuf>)
        ensures
            r matches Some(p) && p@ == self.session@.root,
    {
        Some(self.session.root())
    }
}

/// A launcher is found exactly when one is listed, and what is found is the first
/// that is listed, in the directory of the plugins.
pub proof fn launcher_is_found_when_listed(home: Seq<char>, names: Seq<Seq<char>>)
    ensures
        launcher_of(home, None) is None,
        launcher_of(home, Some(names)) is Some <==> exists|i: int|
            0 <= i < names.len() && is_launcher(#[trigger] names[i]),
        launcher_of(home, Some(names)) matches Some(found) ==> exists|i: int|
            0 <= i < names.len() && is_launcher(#[trigger] names[i]) && found == path::joined(
                path::joined(home, "plugins"@),
                names[i],
            ) && forall|j: int| 0 <= j < i ==> !is_launcher(#[trigger] names[j]),
{
    lemma_first_launcher(names);
}

proof fn lemma_first_launcher(names: Seq<Seq<char>>)
    ensures
        match first_launcher(names) {
            Some(name) => exists|i: int|
                0 <= i < names.len() && is_launcher(#[trigger] names[i]) && name == names[i]
                    && forall|j: int| 0 <= j < i ==> !is_launcher(#[trigger] names[j]),
            None => forall|i: int| 0 <= i < names.len() ==> !is_launcher(#[trigger] names[i]),
        },
    decreases names.len(),
{
    if names.len() > 0 {
        let front = names.drop_last();
        lemma_first_launcher(front);
        match first_launcher(front) {
            Some(name) => {
                let i = choose|i: int|
                    0 <= i < front.len() && is_launcher(#[trigger] front[i]) && name == front[i]
                        && forall|j: int| 0 <= j < i ==> !is_launcher(#[trigger] front[j]);
                assert(names[i] == front[i]);
                assert forall|j: int| 0 <= j < i implies !is_launcher(#[trigger] names[j]) by {
                    assert(front[j] == names[j]);
                }
            },
            None => {
                assert forall|j: int| 0 <= j < front.len() implies !is_launcher(
                    #[trigger] names[j],
                ) by {
                    assert(front[j] == names[j]);
                }
                if is_launcher(names.last()) {
                    assert(is_launcher(names[names.len() - 1]));
                }
            },
        }
    }
}

/// Whether an option with its value stands in a list of arguments.
pub open spec fn has_option(args: Seq<Seq<char>>, option: Seq<char>, value: Seq<char>) -> bool {
    exists|i: int|
        0 <= i < args.len() - 1 && #[trigger] args[i] == option && args[i + 1] == value
}

/// The runtime is told to run the launcher, where the configuration of the session
/// is, and where its data are.
pub proof fn the_server_is_told_its_files(
    launcher: Seq<char>,
    config_dir: Seq<char>,
    data_dir: Seq<char>,
)
    ensures
        has_option(launch_arguments(launcher, config_dir, data_dir), "-jar"@, launcher),
        has_option(launch_arguments(launcher, config_dir, data_dir), "-configuration"@, config_dir),
        has_option(launch_arguments(launcher, config_dir, data_dir), "-data"@, data_dir),
{
    let args = launch_arguments(launcher, config_dir, data_dir);
    assert(args[10] == "-jar"@ && args[11] == launcher);
    assert(args[12] == "-configuration"@ && args[13] == config_dir);
    assert(args[14] == "-data"@ && args[15] == data_dir);
}

/// A place that is named is looked at first, and the usual places are looked at all
/// the same: one in the working directory, and one in the cache.
pub proof fn named_places_come_first(named: Seq<char>, cache: Seq<char>)
    requires
        cache.len() > 0,
    ensures
        candidate_homes(Some(named), cache) == seq![named] + candidate_homes(None, cache),
        bundle_places(Some(named), cache) == seq![named] + bundle_places(None, cache),
        candidate_homes(None, cache).len() == 2,
        !path::absolute(candidate_homes(None, cache)[0]),
        path::components(candidate_homes(None, cache)[1]) == path::components(cache).push("jdtls"@),
        bundle_places(None, cache).len() == 2,
        !path::absolute(bundle_places(None, cache)[0]),
        path::components(bundle_places(None, cache)[1]) == path::components(cache).push(
            "henka-jdtls-bundle.jar"@,
        ),
{
    reveal_strlit(".cache/jdtls");
    reveal_strlit("jdtls-bundle/henka-jdtls-bundle.jar");
    reveal_strlit("jdtls");
    reveal_strlit("henka-jdtls-bundle.jar");
    assert("jdtls"@.len() == 5);
    assert("henka-jdtls-bundle.jar"@.len() == 22);
    assert(path::plain_name("jdtls"@));
    assert(path::plain_name("henka-jdtls-bundle.jar"@));
    path::joined_names_are_file_names(cache, "jdtls"@);
    path::joined_names_are_file_names(cache, "henka-jdtls-bundle.jar"@);
    assert(Seq::<Seq<char>>::empty().push(named) =~= seq![named]);
}

/// The distribution that is taken is the first one that is complete.
pub proof fn the_first_complete_distribution_is_taken(places: Seq<Distribution>, n: int)
    requires
        0 <= n <= places.len(),
        forall|i: int| 0 <= i < n ==> !complete(#[trigger] places[i]),
        n < places.len() ==> complete(places[n]),
    ensures
        first_complete(places) == if n < places.len() {
            Some(n)
        } else {
            None
        },
    decreases places.len(),
{
    if places.len() > 0 {
        let front = places.drop_last();
        let m = if n < front.len() {
            n
        } else {
            front.len() as int
        };
        assert forall|i: int| 0 <= i < m implies !complete(#[trigger] front[i]) by {
            assert(front[i] == places[i]);
        }
        the_first_complete_distribution_is_taken(front, m);
    }
}

/// The configuration directory is the first of the platform's that is there. A
/// machine with an ARM processor has one of its own, and takes that of its system
/// where that one is missing.
pub proof fn the_best_configuration_is_taken(
    names: Seq<Seq<char>>,
    dirs: Seq<Seq<char>>,
    n: int,
)
    requires
        0 <= n <= names.len(),
        forall|i: int| 0 <= i < n ==> !dirs.contains(#[trigger] names[i]),
        n < names.len() ==> dirs.contains(names[n]),
    ensures
        first_listed(names, dirs) == if n < names.len() {
            Some(names[n])
        } else {
            None
        },
        config_names(Platform::MacArm).skip(1) == config_names(Platform::Mac),
        config_names(Platform::LinuxArm).skip(1) == config_names(Platform::Linux),
    decreases names.len(),
{
    assert(config_names(Platform::MacArm).skip(1) =~= config_names(Platform::Mac));
    assert(config_names(Platform::LinuxArm).skip(1) =~= config_names(Platform::Linux));
    if n > 0 {
        let rest = names.drop_first();
        assert(!dirs.contains(names[0]));
        assert forall|i: int| 0 <= i < n - 1 implies !dirs.contains(#[trigger] rest[i]) by {
            assert(rest[i] == names[i + 1]);
        }
        the_best_configuration_is_taken(rest, dirs, n - 1);
    }
}

/// The Java runtime is in the directory of programs of its home directory.
pub proof fn java_is_among_the_programs(home: Seq<char>)
    requires
        home.len() > 0,
    ensures
        path::components(java_in(home)) == path::components(home).push("bin"@).push("java"@),
{
    reveal_strlit("bin");
    reveal_strlit("java");
    assert("bin"@.len() == 3);
    assert("java"@.len() == 4);
    assert(path::plain_name("bin"@));
    assert(path::plain_name("java"@));
    path::joined_names_are_file_names(home, "bin"@);
    path::joined_names_are_file_names(path::joined(home, "bin"@), "java"@);
}

/// A server whose client works alone is told of no refactoring that it would leave
/// to the client, and of every extension that it has to load, in order. One whose
/// client works with it is told of them all.
pub proof fn servers_are_told_who_works(profile: Profile, ability: Seq<char>)
    requires
        ability == "advancedExtractRefactoringSupport"@ || ability
            == "advancedOrganizeImportsSupport"@ || ability == "moveRefactoringSupport"@ || ability
            == "advancedIntroduceParameterRefactoringSupport"@ || ability
            == "extractInterfaceSupport"@ || ability == "executeClientCommandSupport"@,
    ensures
        json::inner(client_options(profile).get("extendedClientCapabilities"@), ability) == (
        if profile is Assisted {
            Some(JsonView::Bool(true))
        } else {
            None
        }),
        json::inner(
            client_options(profile).get("extendedClientCapabilities"@),
            "classFileContentsSupport"@,
        ) == Some(JsonView::Bool(true)),
        match profile {
            Profile::Headless { bundles } => if bundles@.len() > 0 {
                client_options(profile).get("bundles"@) matches Some(JsonView::Array(names))
                    && names.len() == bundles@.len() && (forall|i: int|
                    0 <= i < names.len() ==> #[trigger] names[i] == JsonView::Text(bundles@[i]@))
            } else {
                client_options(profile).get("bundles"@) is None
            },
            Profile::Assisted => client_options(profile).get("bundles"@) is None,
        },
{
    broadcast use json::lemma_lookup_of_pushed;

    reveal_strlit("classFileContentsSupport");
    reveal_strlit("advancedExtractRefactoringSupport");
    reveal_strlit("advancedOrganizeImportsSupport");
    reveal_strlit("moveRefactoringSupport");
    reveal_strlit("resolveAdditionalTextEditsSupport");
    reveal_strlit("advancedIntroduceParameterRefactoringSupport");
    reveal_strlit("extractInterfaceSupport");
    reveal_strlit("executeClientCommandSupport");
    reveal_strlit("inferSelectionSupport");
    reveal_strlit("extendedClientCapabilities");
    reveal_strlit("bundles");
    assert("classFileContentsSupport"@.len() == 24);
    assert("advancedExtractRefactoringSupport"@.len() == 33);
    assert("advancedOrganizeImportsSupport"@.len() == 30);
    assert("moveRefactoringSupport"@.len() == 22);
    assert("resolveAdditionalTextEditsSupport"@.len() == 33);
    assert("advancedIntroduceParameterRefactoringSupport"@.len() == 44);
    assert("extractInterfaceSupport"@.len() == 23);
    assert("executeClientCommandSupport"@.len() == 27);
    assert("inferSelectionSupport"@.len() == 21);
    assert("extendedClientCapabilities"@.len() == 26);
    assert("bundles"@.len() == 7);
    assert("advancedExtractRefactoringSupport"@[0] != "resolveAdditionalTextEditsSupport"@[0]);
}

/// The client announces everything that it does: it renames, looks for references,
/// asks for actions, runs commands, and applies edits.
pub proof fn what_the_client_does_is_announced()
    ensures
        JsonView::Object(document_capabilities()).get("rename"@) is Some,
        JsonView::Object(document_capabilities()).get("references"@) is Some,
        JsonView::Object(document_capabilities()).get("codeAction"@) == Some(
            capabilities::code_action_support_json(),
        ),
        JsonView::Object(workspace_capabilities()).get("executeCommand"@) is Some,
        JsonView::Object(workspace_capabilities()).get("applyEdit"@) == Some(JsonView::Bool(true)),
        JsonView::Object(workspace_capabilities()).get("workspaceEdit"@) == Some(
            capabilities::workspace_edit_json(),
        ),
{
    broadcast use json::lemma_lookup_of_pushed;

    reveal_strlit("applyEdit");
    reveal_strlit("workspaceEdit");
    reveal_strlit("configuration");
    reveal_strlit("executeCommand");
    reveal_strlit("symbol");
    assert("applyEdit"@.len() == 9);
    assert("workspaceEdit"@.len() == 13);
    assert("configuration"@.len() == 13);
    assert("executeCommand"@.len() == 14);
    assert("symbol"@.len() == 6);
    assert("workspaceEdit"@[0] != "configuration"@[0]);
    reveal_strlit("synchronization");
    reveal_strlit("rename");
    reveal_strlit("references");
    reveal_strlit("definition");
    reveal_strlit("implementation");
    reveal_strlit("documentSymbol");
    reveal_strlit("callHierarchy");
    reveal_strlit("typeHierarchy");
    reveal_strlit("codeAction");
    assert("synchronization"@.len() == 15);
    assert("rename"@.len() == 6);
    assert("references"@.len() == 10);
    assert("definition"@.len() == 10);
    assert("implementation"@.len() == 14);
    assert("documentSymbol"@.len() == 14);
    assert("callHierarchy"@.len() == 13);
    assert("typeHierarchy"@.len() == 13);
    assert("codeAction"@.len() == 10);
    assert("references"@[0] != "definition"@[0]);
    assert("references"@[0] != "codeAction"@[0]);
    assert("definition"@[0] != "codeAction"@[0]);
    assert("implementation"@[0] != "documentSymbol"@[0]);
    assert("callHierarchy"@[0] != "typeHierarchy"@[0]);
}

/// The documents of a session are those of its language, under the name of the
/// language.
pub proof fn java_files_are_java_documents(e: Seq<char>)
    ensures
        language::extension_language(e) == Some(Language::Java) <==> exists|i: int|
            0 <= i < java_langs().len() && (#[trigger] java_langs()[i]).0 == e,
        forall|i: int|
            0 <= i < java_langs().len() ==> (#[trigger] java_langs()[i]).1
                == language::language_name(Language::Java),
{
    assert(java_langs()[0].0 == "java"@);
}

/// Of all notifications, only a status that says that the server has started, or that
/// its service is ready, says that the project has been imported.
pub proof fn either_status_ends_the_import(method: Seq<char>, params: JsonView, kind: Seq<char>)
    ensures
        method == "language/status"@ && params.get("type"@) == Some(JsonView::Text(kind)) ==> (
        says_ready(method, params) <==> seq!["Started"@, "ServiceReady"@].contains(kind)),
        method != "language/status"@ || params.get_text("type"@) is None ==> !says_ready(
            method,
            params,
        ),
{
    let kinds = seq!["Started"@, "ServiceReady"@];
    assert(kinds[0] == "Started"@ && kinds[1] == "ServiceReady"@);
}

/// The launcher is the archive of that name, whatever its version, and nothing else is:
/// neither another archive, nor another file of that name.
pub proof fn launchers_are_told_by_their_names(name: Seq<char>, version: Seq<char>)
    ensures
        is_launcher("org.eclipse.equinox.launcher_"@ + version + ".jar"@),
        !text::begins_with(name, "org.eclipse.equinox.launcher_"@) ==> !is_launcher(name),
        !text::finishes_with(name, ".jar"@) ==> !is_launcher(name),
{
    let front = "org.eclipse.equinox.launcher_"@;
    let back = ".jar"@;
    let all = front + version + back;
    assert(all.subrange(0, front.len() as int) =~= front);
    assert(all.subrange(all.len() - back.len(), all.len() as int) =~= back);
}

/// A runtime that is named is run where it is there. One that is missing is as good as
/// none: the runtime is searched for by a single name.
pub proof fn missing_runtimes_are_searched_for(candidate: Probed)
    ensures
        candidate.present ==> java_program(Some(candidate)) == candidate.path@,
        !candidate.present ==> java_program(Some(candidate)) == java_program(None),
        path::plain_name(java_program(None)),
{
    reveal_strlit("java");
    assert("java"@.len() == 4);
}

} // verus!

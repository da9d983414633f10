//! Finding and greeting the TypeScript language server.
use vstd::prelude::*;

use crate::json;
use crate::json::{Json, JsonView, Members};
use crate::language;
use crate::language::Language;
use crate::locate;
use crate::locate::{first_present, list_paths, Probed};
use crate::lsp::capabilities;
use crate::lsp::capabilities::{
    code_action_support, dynamic, flagged, initialize_params, workspace_edit_support,
};
use crate::lsp::session;
use crate::lsp::session::LspSession;
use crate::path;
use crate::path::PathBuf;
use crate::text;
use crate::ts::error::{TsError, TsErrorView};

verus! {

/// Where the server is in a directory of packages.
pub open spec fn server_in(dir: Seq<char>) -> Seq<char> {
    path::joined(dir, "node_modules/.bin/typescript-language-server"@)
}

/// The places where the server may be, in the order in which they are looked at,
/// before the search path.
pub open spec fn server_places(
    henka: Option<Seq<char>>,
    plain: Option<Seq<char>>,
    cache: Seq<char>,
) -> Seq<Seq<char>> {
    let none = Seq::<Seq<char>>::empty();
    let first = match henka {
        Some(p) => none.push(p),
        None => none,
    };
    let second = match plain {
        Some(p) => first.push(p),
        None => first,
    };
    second.push(server_in(".cache/typescript-language-server"@)).push(
        server_in(path::joined(cache, "typescript-language-server"@)),
    )
}

/// The places where the server may be, in the order in which they are looked at,
/// before the search path. `henka` is `$HENKA_TYPESCRIPT_LANGUAGE_SERVER`, `plain`
/// is `$TYPESCRIPT_LANGUAGE_SERVER`, and `cache` is the cache directory.
pub fn candidates(henka: &Option<String>, plain: &Option<String>, cache: &PathBuf) -> (r: Vec<
    PathBuf,
>)
    ensures
        path::texts(r@) == server_places(text::optional(*henka), text::optional(*plain), cache@),
{
    let bin = PathBuf::new("node_modules/.bin/typescript-language-server");
    let mut out: Vec<PathBuf> = Vec::new();
    if let Some(p) = henka {
        out.push(PathBuf::new(p.as_str()));
    }
    if let Some(p) = plain {
        out.push(PathBuf::new(p.as_str()));
    }
    out.push(PathBuf::new(".cache/typescript-language-server").join(&bin));
    out.push(cache.join(&PathBuf::new("typescript-language-server")).join(&bin));
    assert(path::texts(out@) =~= server_places(
        text::optional(*henka),
        text::optional(*plain),
        cache@,
    ));
    out
}

/// Where the server has been found.
#[derive(Debug)]
pub enum Located {
    /// At a path, which has to be made absolute before it is run from elsewhere.
    At(PathBuf),
    /// On the search path, under this name.
    OnPath(String),
}

/// Finds the server: at the first place at which a file is, else on the search
/// path.
pub fn locate(places: &Vec<Probed>, on_path: bool) -> (r: Result<Located, TsError>)
    ensures
        match locate::first_present_path(places@) {
            Some(place) => r matches Ok(Located::At(p)) && p@ == place,
            None => if on_path {
                r matches Ok(Located::OnPath(name)) && name@ == "typescript-language-server"@
            } else {
                r matches Err(e) && e@ == TsErrorView::ServerNotFound(
                    locate::listed(
                        locate::probed_paths(places@).push("typescript-language-server (PATH)"@),
                    ),
                )
            },
        },
{
    if let Some(p) = first_present(places) {
        return Ok(Located::At(p));
    }
    if on_path {
        return Ok(Located::OnPath("typescript-language-server".to_owned()));
    }
    let mut looked: Vec<PathBuf> = Vec::new();
    let mut i: usize = 0;
    while i < places.len()
        invariant
            i <= places@.len(),
            looked@.len() == i,
            forall|j: int| 0 <= j < i ==> looked@[j]@ == places@[j].path@,
        decreases places@.len() - i,
    {
        looked.push(places[i].path.clone());
        i += 1;
    }
    looked.push(PathBuf::new("typescript-language-server (PATH)"));
    assert(path::texts(looked@) =~= locate::probed_paths(places@).push(
        "typescript-language-server (PATH)"@,
    ));
    Err(TsError::ServerNotFound(list_paths(&looked)))
}

/// What the client can do with a workspace.
pub open spec fn workspace_capabilities() -> Seq<(Seq<char>, JsonView)> {
    json::no_members().push(("applyEdit"@, JsonView::Bool(true))).push(
        ("workspaceEdit"@, capabilities::workspace_edit_json()),
    ).push(("configuration"@, JsonView::Bool(true)))
}

/// What the client can do with a document.
pub open spec fn document_capabilities() -> Seq<(Seq<char>, JsonView)> {
    json::no_members().push(
        (
            "synchronization"@,
            JsonView::Object(
                json::no_members().push(("didSave"@, JsonView::Bool(true))).push(
                    ("dynamicRegistration"@, JsonView::Bool(true)),
                ),
            ),
        ),
    ).push(("rename"@, capabilities::flagged_json("prepareSupport"@))).push(
        ("references"@, capabilities::dynamic_json()),
    ).push(("definition"@, capabilities::dynamic_json())).push(
        ("codeAction"@, capabilities::code_action_support_json()),
    )
}

/// The parameters of `initialize`.
pub fn initialize(process_id: u32, root: &PathBuf) -> (r: Json)
    ensures
        r@ == capabilities::initialize_json(
            process_id,
            root@,
            workspace_capabilities(),
            document_capabilities(),
            JsonView::Object(json::no_members()),
        ),
{
    let workspace = Members::new().with("applyEdit", Json::Bool(true)).with(
        "workspaceEdit",
        workspace_edit_support(),
    ).with("configuration", Json::Bool(true));
    let synchronization = Members::new().with("didSave", Json::Bool(true)).with(
        "dynamicRegistration",
        Json::Bool(true),
    ).done();
    let document = Members::new().with("synchronization", synchronization).with(
        "rename",
        flagged("prepareSupport"),
    ).with("references", dynamic()).with("definition", dynamic()).with(
        "codeAction",
        code_action_support(),
    );
    initialize_params(process_id, root, workspace, document, Members::new().done())
}

/// The session of one TypeScript or JavaScript project.
#[derive(Debug)]
pub struct TsSession {
    /// The documents of the session.
    pub session: LspSession,
}

/// Source extensions and the language ids of their documents.
pub open spec fn ts_langs() -> Seq<(Seq<char>, Seq<char>)> {
    seq![
        ("ts"@, "typescript"@),
        ("mts"@, "typescript"@),
        ("cts"@, "typescript"@),
        ("tsx"@, "typescriptreact"@),
        ("js"@, "javascript"@),
        ("mjs"@, "javascript"@),
        ("cjs"@, "javascript"@),
        ("jsx"@, "javascriptreact"@),
    ]
}

impl TsSession {
    /// A session for `root` in which nothing is open.
    pub fn start(root: &PathBuf) -> (r: TsSession)
        ensures
            r.session.wf(),
            r.session@ == session::fresh(root@, ts_langs()),
    {
        let mut langs: Vec<(String, String)> = Vec::new();
        langs.push(("ts".to_owned(), "typescript".to_owned()));
        langs.push(("mts".to_owned(), "typescript".to_owned()));
        langs.push(("cts".to_owned(), "typescript".to_owned()));
        langs.push(("tsx".to_owned(), "typescriptreact".to_owned()));
        langs.push(("js".to_owned(), "javascript".to_owned()));
        langs.push(("mjs".to_owned(), "javascript".to_owned()));
        langs.push(("cjs".to_owned(), "javascript".to_owned()));
        langs.push(("jsx".to_owned(), "javascriptreact".to_owned()));
        assert(session::lang_views(langs@) =~= ts_langs());
        TsSession { session: LspSession::new(root, langs) }
    }

    /// The project root.
    pub fn root(&self) -> (r: &PathBuf)
        ensures
            r@ == self.session@.root,
    {
        self.session.root()
    }
}

// ---------------------------------------------------------------------------
// Laws
// ---------------------------------------------------------------------------

/// The places that are named are looked at first, the own one before the common one,
/// and the usual places are looked at all the same: one in the working directory, and
/// one in the cache.
pub proof fn named_places_come_first(own: Seq<char>, common: Seq<char>, cache: Seq<char>)
    requires
        cache.len() > 0,
    ensures
        server_places(Some(own), Some(common), cache) == seq![own, common] + server_places(
            None,
            None,
            cache,
        ),
        server_places(Some(own), None, cache) == seq![own] + server_places(None, None, cache),
        server_places(None, Some(common), cache) == seq![common] + server_places(None, None, cache),
        server_places(None, None, cache).len() == 2,
        !path::absolute(server_places(None, None, cache)[0]),
        path::under(server_places(None, None, cache)[1], cache),
{
    reveal_strlit(".cache/typescript-language-server");
    reveal_strlit("typescript-language-server");
    reveal_strlit("node_modules/.bin/typescript-language-server");
    assert("typescript-language-server"@.len() == 26);
    assert(".cache/typescript-language-server"@.len() == 33);
    assert("node_modules/.bin/typescript-language-server"@[0] == 'n');
    assert(path::plain_name("typescript-language-server"@));
    let dir = path::joined(cache, "typescript-language-server"@);
    path::joined_names_are_file_names(cache, "typescript-language-server"@);
    path::join_appends_components(dir, "node_modules/.bin/typescript-language-server"@);
    let n = path::components(cache).len() as int;
    assert(path::components(server_in(dir)).take(n) =~= path::components(cache));
    let rest = server_places(None, None, cache);
    assert(server_places(Some(own), Some(common), cache) =~= seq![own, common] + rest);
    assert(server_places(Some(own), None, cache) =~= seq![own] + rest);
    assert(server_places(None, Some(common), cache) =~= seq![common] + rest);
}

/// The client announces everything that it does: it renames, looks for references,
/// asks for actions, and applies edits.
pub proof fn what_the_client_does_is_announced()
    ensures
        JsonView::Object(document_capabilities()).get("rename"@) is Some,
        JsonView::Object(document_capabilities()).get("references"@) is Some,
        JsonView::Object(document_capabilities()).get("codeAction"@) == Some(
            capabilities::code_action_support_json(),
        ),
        JsonView::Object(workspace_capabilities()).get("applyEdit"@) == Some(JsonView::Bool(true)),
        JsonView::Object(workspace_capabilities()).get("workspaceEdit"@) == Some(
            capabilities::workspace_edit_json(),
        ),
{
    broadcast use json::lemma_lookup_of_pushed;

    reveal_strlit("synchronization");
    reveal_strlit("rename");
    reveal_strlit("references");
    reveal_strlit("definition");
    reveal_strlit("codeAction");
    reveal_strlit("applyEdit");
    reveal_strlit("workspaceEdit");
    reveal_strlit("configuration");
    assert("synchronization"@.len() == 15);
    assert("rename"@.len() == 6);
    assert("references"@.len() == 10);
    assert("definition"@.len() == 10);
    assert("codeAction"@.len() == 10);
    assert("applyEdit"@.len() == 9);
    assert("workspaceEdit"@.len() == 13);
    assert("configuration"@.len() == 13);
    assert("references"@[0] != "definition"@[0]);
    assert("references"@[0] != "codeAction"@[0]);
    assert("definition"@[0] != "codeAction"@[0]);
    assert("workspaceEdit"@[0] != "configuration"@[0]);
}

/// The documents of a session are those of its two languages, each under a name that
/// begins with that of its language.
pub proof fn sources_are_documents_of_their_language(e: Seq<char>, i: int)
    ensures
        language::extension_language(e) == Some(Language::TypeScript)
            || language::extension_language(e) == Some(Language::JavaScript) <==> exists|j: int|
            0 <= j < ts_langs().len() && (#[trigger] ts_langs()[j]).0 == e,
        0 <= i < ts_langs().len() ==> (language::extension_language(ts_langs()[i].0) matches Some(l)
            && text::begins_with(ts_langs()[i].1, language::language_name(l))),
{
    let langs = ts_langs();
    reveal_strlit("ts");
    reveal_strlit("mts");
    reveal_strlit("cts");
    reveal_strlit("tsx");
    reveal_strlit("js");
    reveal_strlit("mjs");
    reveal_strlit("cjs");
    reveal_strlit("jsx");
    reveal_strlit("java");
    reveal_strlit("rs");
    assert("ts"@.len() == 2);
    assert("mts"@.len() == 3);
    assert("cts"@.len() == 3);
    assert("tsx"@.len() == 3);
    assert("js"@.len() == 2);
    assert("mjs"@.len() == 3);
    assert("cjs"@.len() == 3);
    assert("jsx"@.len() == 3);
    assert("java"@.len() == 4);
    assert("rs"@.len() == 2);
    assert("ts"@[0] != "js"@[0]);
    assert("ts"@[0] != "rs"@[0]);
    assert("mts"@[0] != "cts"@[0]);
    assert("mts"@[0] != "tsx"@[0]);
    assert("mts"@[1] != "mjs"@[1]);
    assert("mts"@[0] != "cjs"@[0]);
    assert("mts"@[0] != "jsx"@[0]);
    assert("cts"@[0] != "tsx"@[0]);
    assert("cts"@[0] != "mjs"@[0]);
    assert("cts"@[1] != "cjs"@[1]);
    assert("cts"@[0] != "jsx"@[0]);
    assert("tsx"@[0] != "mjs"@[0]);
    assert("tsx"@[0] != "cjs"@[0]);
    assert("tsx"@[0] != "jsx"@[0]);
    assert("js"@[0] != "rs"@[0]);
    assert("mjs"@[0] != "cjs"@[0]);
    assert("mjs"@[0] != "jsx"@[0]);
    assert("cjs"@[0] != "jsx"@[0]);
    reveal_strlit("typescript");
    reveal_strlit("javascript");
    reveal_strlit("typescriptreact");
    reveal_strlit("javascriptreact");
    assert("typescript"@.len() == 10);
    assert("javascript"@.len() == 10);
    assert("typescriptreact"@.len() == 15);
    assert("javascriptreact"@.len() == 15);
    assert("typescript"@[0] != "javascript"@[0]);
    assert("typescriptreact"@[0] != "javascriptreact"@[0]);
    assert(langs[0].0 == "ts"@);
    assert(langs[1].0 == "mts"@);
    assert(langs[2].0 == "cts"@);
    assert(langs[3].0 == "tsx"@);
    assert(langs[4].0 == "js"@);
    assert(langs[5].0 == "mjs"@);
    assert(langs[6].0 == "cjs"@);
    assert(langs[7].0 == "jsx"@);
    assert("typescriptreact"@.subrange(0, 10) =~= "typescript"@);
    assert("javascriptreact"@.subrange(0, 10) =~= "javascript"@);
    assert("typescript"@.subrange(0, 10) =~= "typescript"@);
    assert("javascript"@.subrange(0, 10) =~= "javascript"@);
}

} // verus!

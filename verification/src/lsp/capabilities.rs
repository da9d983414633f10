//! What a client announces to a server when it connects.
use vstd::prelude::*;

use crate::json;
use crate::json::{Items, Json, JsonView, Members};
use crate::lsp::uri;
use crate::lsp::uri::path_to_file_uri;
use crate::path::PathBuf;
use crate::text;

verus! {

/// A capability that the server may register later.
pub open spec fn dynamic_json() -> JsonView {
    JsonView::Object(json::no_members().push(("dynamicRegistration"@, JsonView::Bool(true))))
}

/// A capability that the server may register later, with a flag.
pub open spec fn flagged_json(flag: Seq<char>) -> JsonView {
    JsonView::Object(
        json::no_members().push(("dynamicRegistration"@, JsonView::Bool(true))).push(
            (flag, JsonView::Bool(true)),
        ),
    )
}

/// Support for edits of the workspace: versioned changes and all file operations.
pub open spec fn workspace_edit_json() -> JsonView {
    JsonView::Object(
        json::no_members().push(("documentChanges"@, JsonView::Bool(true))).push(
            (
                "resourceOperations"@,
                JsonView::Array(
                    json::no_items().push(JsonView::Text("create"@)).push(
                        JsonView::Text("rename"@),
                    ).push(JsonView::Text("delete"@)),
                ),
            ),
        ),
    )
}

/// The kinds of code action that the client knows.
pub open spec fn action_kinds_json() -> JsonView {
    JsonView::Array(
        json::no_items().push(JsonView::Text(""@)).push(JsonView::Text("quickfix"@)).push(
            JsonView::Text("refactor"@),
        ).push(JsonView::Text("refactor.extract"@)).push(JsonView::Text("refactor.inline"@)).push(
            JsonView::Text("refactor.rewrite"@),
        ).push(JsonView::Text("source"@)).push(JsonView::Text("source.organizeImports"@)),
    )
}

/// Support for code actions whose edit is completed on demand.
pub open spec fn code_action_support_json() -> JsonView {
    JsonView::Object(
        json::no_members().push(("dynamicRegistration"@, JsonView::Bool(true))).push(
            (
                "codeActionLiteralSupport"@,
                JsonView::Object(
                    json::no_members().push(
                        (
                            "codeActionKind"@,
                            JsonView::Object(
                                json::no_members().push(("valueSet"@, action_kinds_json())),
                            ),
                        ),
                    ),
                ),
            ),
        ).push(
            (
                "resolveSupport"@,
                JsonView::Object(
                    json::no_members().push(
                        (
                            "properties"@,
                            JsonView::Array(json::no_items().push(JsonView::Text("edit"@))),
                        ),
                    ),
                ),
            ),
        ),
    )
}

/// The parameters of `initialize`.
pub open spec fn initialize_json(
    process_id: u32,
    root: Seq<char>,
    workspace: Seq<(Seq<char>, JsonView)>,
    text_document: Seq<(Seq<char>, JsonView)>,
    options: JsonView,
) -> JsonView {
    JsonView::Object(
        json::no_members().push(("processId"@, json::unsigned_json(process_id as u64))).push(
            ("rootUri"@, JsonView::Text(uri::uri_of(root))),
        ).push(
            (
                "capabilities"@,
                JsonView::Object(
                    json::no_members().push(("workspace"@, JsonView::Object(workspace))).push(
                        ("textDocument"@, JsonView::Object(text_document)),
                    ),
                ),
            ),
        ).push(("initializationOptions"@, options)),
    )
}

/// A capability that the server may register later.
pub fn dynamic() -> (r: Json)
    ensures
        r@ == dynamic_json(),
{
    Members::new().with("dynamicRegistration", Json::Bool(true)).done()
}

/// A capability that the server may register later, with a flag.
pub fn flagged(flag: &str) -> (r: Json)
    ensures
        r@ == flagged_json(flag@),
{
    Members::new().with("dynamicRegistration", Json::Bool(true)).with(
        flag,
        Json::Bool(true),
    ).done()
}

/// Support for edits of the workspace.
pub fn workspace_edit_support() -> (r: Json)
    ensures
        r@ == workspace_edit_json(),
{
    Members::new().with("documentChanges", Json::Bool(true)).with(
        "resourceOperations",
        Items::new().with(Json::text("create")).with(Json::text("rename")).with(
            Json::text("delete"),
        ).done(),
    ).done()
}

/// Support for code actions whose edit is completed on demand.
pub fn code_action_support() -> (r: Json)
    ensures
        r@ == code_action_support_json(),
{
    let kinds = Items::new().with(Json::text("")).with(Json::text("quickfix")).with(
        Json::text("refactor"),
    ).with(Json::text("refactor.extract")).with(Json::text("refactor.inline")).with(
        Json::text("refactor.rewrite"),
    ).with(Json::text("source")).with(Json::text("source.organizeImports")).done();
    Members::new().with("dynamicRegistration", Json::Bool(true)).with(
        "codeActionLiteralSupport",
        Members::new().with(
            "codeActionKind",
            Members::new().with("valueSet", kinds).done(),
        ).done(),
    ).with(
        "resolveSupport",
        Members::new().with("properties", Items::new().with(Json::text("edit")).done()).done(),
    ).done()
}

/// The parameters of `initialize`.
pub fn initialize_params(
    process_id: u32,
    root: &PathBuf,
    workspace: Members,
    text_document: Members,
    options: Json,
) -> (r: Json)
    ensures
        r@ == initialize_json(process_id, root@, workspace@, text_document@, options@),
{
    Members::new().with("processId", Json::unsigned(process_id as u64)).with(
        "rootUri",
        Json::text(path_to_file_uri(root).as_str()),
    ).with(
        "capabilities",
        Members::new().with("workspace", workspace.done()).with(
            "textDocument",
            text_document.done(),
        ).done(),
    ).with("initializationOptions", options).done()
}

// ---------------------------------------------------------------------------
// Laws
// ---------------------------------------------------------------------------

/// A server is told who its client is, which project it is for, what the client can
/// do, and what else it wants said: each in the field that is for it.
pub proof fn servers_are_told_who_calls(
    process_id: u32,
    root: Seq<char>,
    workspace: Seq<(Seq<char>, JsonView)>,
    text_document: Seq<(Seq<char>, JsonView)>,
    options: JsonView,
)
    ensures
        ({
            let told = initialize_json(process_id, root, workspace, text_document, options);
            &&& told.get("processId"@) matches Some(n) && n.unsigned() == Some(process_id as u64)
            &&& told.get_text("rootUri"@) matches Some(u) && (uri::percent_signs_stay(root)
                ==> uri::path_of(u) == root)
            &&& json::inner(told.get("capabilities"@), "workspace"@) == Some(
                JsonView::Object(workspace),
            )
            &&& json::inner(told.get("capabilities"@), "textDocument"@) == Some(
                JsonView::Object(text_document),
            )
            &&& told.get("initializationOptions"@) == Some(options)
        }),
{
    broadcast use json::lemma_lookup_of_pushed;

    reveal_strlit("processId");
    reveal_strlit("rootUri");
    reveal_strlit("capabilities");
    reveal_strlit("initializationOptions");
    reveal_strlit("workspace");
    reveal_strlit("textDocument");
    assert("processId"@.len() == 9);
    assert("rootUri"@.len() == 7);
    assert("capabilities"@.len() == 12);
    assert("initializationOptions"@.len() == 21);
    assert("workspace"@.len() == 9);
    assert("textDocument"@.len() == 12);
    assert("processId"@[0] != "workspace"@[0]);
    assert("capabilities"@[0] != "textDocument"@[0]);
    if uri::percent_signs_stay(root) {
        uri::path_survives_its_uri(root);
    }
}

/// Whether a kind of action is one that the client announces, or one below it.
pub open spec fn announced_kind(kind: Seq<char>) -> bool {
    exists|i: int|
        0 <= i < action_kinds_json()->Array_0.len() && (#[trigger] action_kinds_json()->Array_0[i]
            matches JsonView::Text(known) && known.len() > 0 && (kind == known
            || text::begins_with(kind, known + "."@)))
}

/// The kinds of action that the client announces are told as its known kinds, and
/// the edit of an action may be left for later.
pub proof fn actions_are_announced()
    ensures
        json::inner(
            json::inner(code_action_support_json().get("codeActionLiteralSupport"@), "codeActionKind"@),
            "valueSet"@,
        ) == Some(action_kinds_json()),
        json::inner(code_action_support_json().get("resolveSupport"@), "properties"@) matches Some(
            JsonView::Array(names),
        ) && names.contains(JsonView::Text("edit"@)),
{
    broadcast use json::lemma_lookup_of_pushed;

    reveal_strlit("dynamicRegistration");
    reveal_strlit("codeActionLiteralSupport");
    reveal_strlit("resolveSupport");
    reveal_strlit("codeActionKind");
    reveal_strlit("valueSet");
    reveal_strlit("properties");
    reveal_strlit("documentChanges");
    reveal_strlit("resourceOperations");
    assert("dynamicRegistration"@.len() == 19);
    assert("codeActionLiteralSupport"@.len() == 24);
    assert("resolveSupport"@.len() == 14);
    assert("codeActionKind"@.len() == 14);
    assert("valueSet"@.len() == 8);
    assert("properties"@.len() == 10);
    assert("documentChanges"@.len() == 15);
    assert("resourceOperations"@.len() == 18);
    assert("resolveSupport"@[0] != "codeActionKind"@[0]);
    let names = json::no_items().push(JsonView::Text("edit"@));
    assert(names[0] == JsonView::Text("edit"@));
}

/// The kinds below those of extracting, of inlining and of organizing imports are
/// announced.
pub proof fn lemma_announced(kind: Seq<char>)
    ensures
        kind == "refactor.extract"@ || text::begins_with(kind, "refactor.extract"@ + "."@)
            ==> announced_kind(kind),
        kind == "refactor.inline"@ ==> announced_kind(kind),
        kind == "source.organizeImports"@ ==> announced_kind(kind),
{
    reveal_strlit("refactor.extract");
    reveal_strlit("refactor.inline");
    reveal_strlit("source.organizeImports");
    let kinds = action_kinds_json()->Array_0;
    assert(kinds[3] == JsonView::Text("refactor.extract"@));
    assert(kinds[4] == JsonView::Text("refactor.inline"@));
    assert(kinds[7] == JsonView::Text("source.organizeImports"@));
    assert("refactor.extract"@.len() > 0);
    assert("refactor.inline"@.len() > 0);
    assert("source.organizeImports"@.len() > 0);
}

} // verus!

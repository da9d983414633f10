//! The operations on Java code.
use vstd::prelude::*;

use crate::backend;
use crate::backend::{
    described_flag_value, described_value, describe_code_action, describe_find_usages,
    describe_rename, start_change_signature, start_code_action, start_find_usages, start_rename,
    Action, ActionOpView, ChoiceRule, ChoiceRuleView, Run,
};
use crate::json;
use crate::json::{Items, Json, JsonView, Members};
use crate::language::Language;
use crate::lsp::capabilities;
use crate::operation::{
    DescriptorView, OperationDescriptor, OperationKind, OperationRequest, TargetKind,
};
use crate::text;

verus! {

/// The languages that these operations apply to.
pub open spec fn java_only() -> Seq<Language> {
    seq![Language::Java]
}

/// The languages that these operations apply to.
fn languages() -> (r: Vec<Language>)
    ensures
        r@ == java_only(),
{
    let mut out: Vec<Language> = Vec::new();
    out.push(Language::Java);
    out
}

/// Renames the symbol at a position and updates all references.
#[derive(Debug, Clone, Copy, PartialEq, Eq, Structural)]
pub struct RenameOp;

impl RenameOp {
    /// What the operation says of itself.
    pub fn descriptor(&self) -> (r: OperationDescriptor)
        ensures
            r@ == backend::rename_description(java_only()),
    {
        describe_rename(languages())
    }

    /// Starts the operation.
    pub fn run(&self, req: &OperationRequest) -> (r: (Run, Action))
        ensures
            (r.0@, r.1@) == backend::rename_started(req.target@, req.params@),
    {
        start_rename(req)
    }
}

/// Finds all references to the symbol at a position.
#[derive(Debug, Clone, Copy, PartialEq, Eq, Structural)]
pub struct FindUsagesOp;

impl FindUsagesOp {
    /// What the operation says of itself.
    pub fn descriptor(&self) -> (r: OperationDescriptor)
        ensures
            r@ == backend::usages_description(java_only()),
    {
        describe_find_usages(languages())
    }

    /// Starts the operation.
    pub fn run(&self, req: &OperationRequest) -> (r: (Run, Action))
        ensures
            (r.0@, r.1@) == backend::usages_started(req.target@, req.params@),
    {
        start_find_usages(req)
    }
}

/// An operation that is a code action of the server: the extract refactorings,
/// inline, and organize-imports.
#[derive(Debug, Clone, Copy, PartialEq, Eq)]
pub struct CodeActionOp {
    id: &'static str,
    title: &'static str,
    description: &'static str,
    action_kind: &'static str,
    prefer_title: Option<&'static str>,
    target: TargetKind,
}

impl View for CodeActionOp {
    type V = ActionOpView;

    closed spec fn view(&self) -> ActionOpView {
        ActionOpView {
            id: self.id@,
            title: self.title@,
            description: self.description@,
            action_kind: self.action_kind@,
            rule: ChoiceRuleView::SingleTarget {
                prefer_title: match self.prefer_title {
                    Some(s) => Some(s@),
                    None => None,
                },
            },
            target: self.target,
        }
    }
}

/// A code action whose title does not matter.
pub open spec fn plain_action(
    id: Seq<char>,
    title: Seq<char>,
    description: Seq<char>,
    action_kind: Seq<char>,
    target: TargetKind,
) -> ActionOpView {
    ActionOpView {
        id,
        title,
        description,
        action_kind,
        rule: ChoiceRuleView::SingleTarget { prefer_title: None },
        target,
    }
}

/// The code-action operations on Java code. The kind `refactor.inline` hosts other
/// refactorings too, so the title of an inline action has to say so.
pub open spec fn java_actions() -> Seq<ActionOpView> {
    seq![
        plain_action(
            "extract-variable"@,
            "Extract to local variable"@,
            "Extract the selected expression into a new local variable"@,
            "refactor.extract.variable"@,
            TargetKind::Selection,
        ),
        plain_action(
            "extract-constant"@,
            "Extract to constant"@,
            "Extract the selected expression into a new constant"@,
            "refactor.extract.constant"@,
            TargetKind::Selection,
        ),
        plain_action(
            "extract-field"@,
            "Extract to field"@,
            "Extract the selected expression into a new field"@,
            "refactor.extract.field"@,
            TargetKind::Selection,
        ),
        plain_action(
            "extract-method"@,
            "Extract to method"@,
            "Extract the selected statements into a new method"@,
            "refactor.extract.function"@,
            TargetKind::Selection,
        ),
        ActionOpView {
            id: "inline"@,
            title: "Inline"@,
            description: "Inline the local variable, constant, or method at the position"@,
            action_kind: "refactor.inline"@,
            rule: ChoiceRuleView::SingleTarget { prefer_title: Some("Inline"@) },
            target: TargetKind::Position,
        },
        plain_action(
            "organize-imports"@,
            "Organize imports"@,
            "Sort and prune the file's imports"@,
            "source.organizeImports"@,
            TargetKind::File,
        ),
    ]
}

impl CodeActionOp {
    fn new(
        id: &'static str,
        title: &'static str,
        description: &'static str,
        action_kind: &'static str,
        target: TargetKind,
    ) -> (r: Self)
        ensures
            r@ == plain_action(id@, title@, description@, action_kind@, target),
    {
        CodeActionOp { id, title, description, action_kind, prefer_title: None, target }
    }

    /// The operation with a text that the title of the chosen action has to
    /// contain.
    fn preferring(self, substring: &'static str) -> (r: Self)
        ensures
            r@ == (ActionOpView {
                rule: ChoiceRuleView::SingleTarget { prefer_title: Some(substring@) },
                ..self@
            }),
    {
        CodeActionOp {
            id: self.id,
            title: self.title,
            description: self.description,
            action_kind: self.action_kind,
            prefer_title: Some(substring),
            target: self.target,
        }
    }

    /// The code-action operations on Java code.
    pub fn java_set() -> (r: Vec<CodeActionOp>)
        ensures
            r@.map_values(|o: CodeActionOp| o@) == java_actions(),
    {
        let mut out: Vec<CodeActionOp> = Vec::new();
        out.push(
            CodeActionOp::new(
                "extract-variable",
                "Extract to local variable",
                "Extract the selected expression into a new local variable",
                "refactor.extract.variable",
                TargetKind::Selection,
            ),
        );
        out.push(
            CodeActionOp::new(
                "extract-constant",
                "Extract to constant",
                "Extract the selected expression into a new constant",
                "refactor.extract.constant",
                TargetKind::Selection,
            ),
        );
        out.push(
            CodeActionOp::new(
                "extract-field",
                "Extract to field",
                "Extract the selected expression into a new field",
                "refactor.extract.field",
                TargetKind::Selection,
            ),
        );
        out.push(
            CodeActionOp::new(
                "extract-method",
                "Extract to method",
                "Extract the selected statements into a new method",
                "refactor.extract.function",
                TargetKind::Selection,
            ),
        );
        out.push(
            CodeActionOp::new(
                "inline",
                "Inline",
                "Inline the local variable, constant, or method at the position",
                "refactor.inline",
                TargetKind::Position,
            ).preferring("Inline"),
        );
        out.push(
            CodeActionOp::new(
                "organize-imports",
                "Organize imports",
                "Sort and prune the file's imports",
                "source.organizeImports",
                TargetKind::File,
            ),
        );
        assert(out@.map_values(|o: CodeActionOp| o@) =~= java_actions());
        out
    }

    /// What the operation says of itself.
    pub fn descriptor(&self) -> (r: OperationDescriptor)
        ensures
            r@ == backend::action_description(self@, java_only()),
    {
        describe_code_action(self.id, self.title, self.description, self.target, languages())
    }

    /// Starts the operation.
    pub fn run(&self, req: &OperationRequest) -> (r: (Run, Action))
        ensures
            (r.0@, r.1@) == backend::action_started(
                self@.id,
                self@.action_kind,
                self@.rule,
                req.target@,
            ),
    {
        let rule = ChoiceRule::SingleTarget {
            prefer_title: match self.prefer_title {
                Some(s) => Some(s.to_owned()),
                None => None,
            },
        };
        start_code_action(self.id, self.action_kind, rule, req)
    }
}

/// Changes the name, the return type, the visibility or the parameters of a method
/// and updates all call sites.
#[derive(Debug, Clone, Copy, PartialEq, Eq, Structural)]
pub struct ChangeSignatureOp;

/// The schema of one parameter of a new signature.
pub open spec fn parameter_schema() -> JsonView {
    JsonView::Object(
        json::no_members().push(("type"@, JsonView::Text("object"@))).push(
            (
                "properties"@,
                JsonView::Object(
                    json::no_members().push(
                        (
                            "type"@,
                            JsonView::Object(
                                json::no_members().push(("type"@, JsonView::Text("string"@))),
                            ),
                        ),
                    ).push(
                        (
                            "name"@,
                            JsonView::Object(
                                json::no_members().push(("type"@, JsonView::Text("string"@))),
                            ),
                        ),
                    ).push(
                        (
                            "default_value"@,
                            backend::described(
                                "string"@,
                                "Initializer for a newly added parameter."@,
                            ),
                        ),
                    ).push(
                        (
                            "original_index"@,
                            backend::described(
                                "integer"@,
                                "Index of this parameter in the original signature, or -1 if new."@,
                            ),
                        ),
                    ),
                ),
            ),
        ).push(
            (
                "required"@,
                JsonView::Array(
                    json::no_items().push(JsonView::Text("type"@)).push(
                        JsonView::Text("name"@),
                    ).push(JsonView::Text("original_index"@)),
                ),
            ),
        ),
    )
}

/// The schema of a change of signature.
pub open spec fn signature_schema() -> JsonView {
    JsonView::Object(
        json::no_members().push(("type"@, JsonView::Text("object"@))).push(
            (
                "properties"@,
                JsonView::Object(
                    json::no_members().push(
                        (
                            "name"@,
                            backend::described(
                                "string"@,
                                "New method name (defaults to current)."@,
                            ),
                        ),
                    ).push(
                        (
                            "return_type"@,
                            backend::described(
                                "string"@,
                                "New return type (defaults to current)."@,
                            ),
                        ),
                    ).push(
                        (
                            "modifier"@,
                            backend::described(
                                "string"@,
                                "New visibility, e.g. public/protected/private (defaults to current)."@,
                            ),
                        ),
                    ).push(
                        (
                            "delegate"@,
                            backend::described_flag(
                                false,
                                "Keep the original method as a delegate."@,
                            ),
                        ),
                    ).push(
                        (
                            "parameters"@,
                            JsonView::Object(
                                json::no_members().push(("type"@, JsonView::Text("array"@))).push(
                                    (
                                        "description"@,
                                        JsonView::Text(
                                            "The full new parameter list, in order. Omit to keep the current parameters."@,
                                        ),
                                    ),
                                ).push(("items"@, parameter_schema())),
                            ),
                        ),
                    ),
                ),
            ),
        ),
    )
}

/// The descriptor of a change of signature.
pub open spec fn signature_description() -> DescriptorView {
    DescriptorView {
        id: "change-signature"@,
        title: "Change signature"@,
        description: "Change a method's name, return type, visibility, or parameters and update all call sites"@,
        kind: OperationKind::Edit,
        languages: java_only(),
        target: TargetKind::Position,
        params_schema: signature_schema(),
    }
}

/// The schema of a value of a type.
fn typed(kind: &str) -> (r: Json)
    ensures
        r@ == JsonView::Object(json::no_members().push(("type"@, JsonView::Text(kind@)))),
{
    Members::new().with("type", Json::text(kind)).done()
}

/// The schema of one parameter of a new signature.
fn parameter_schema_value() -> (r: Json)
    ensures
        r@ == parameter_schema(),
{
    let properties = Members::new().with("type", typed("string")).with("name", typed("string")).with(
        "default_value",
        described_value("string", "Initializer for a newly added parameter."),
    ).with(
        "original_index",
        described_value(
            "integer",
            "Index of this parameter in the original signature, or -1 if new.",
        ),
    ).done();
    let required = Items::new().with(Json::text("type")).with(Json::text("name")).with(
        Json::text("original_index"),
    ).done();
    Members::new().with("type", Json::text("object")).with("properties", properties).with(
        "required",
        required,
    ).done()
}

impl ChangeSignatureOp {
    /// What the operation says of itself.
    pub fn descriptor(&self) -> (r: OperationDescriptor)
        ensures
            r@ == signature_description(),
    {
        let parameters = Members::new().with("type", Json::text("array")).with(
            "description",
            Json::text(
                "The full new parameter list, in order. Omit to keep the current parameters.",
            ),
        ).with("items", parameter_schema_value()).done();
        let properties = Members::new().with(
            "name",
            described_value("string", "New method name (defaults to current)."),
        ).with(
            "return_type",
            described_value("string", "New return type (defaults to current)."),
        ).with(
            "modifier",
            described_value(
                "string",
                "New visibility, e.g. public/protected/private (defaults to current).",
            ),
        ).with(
            "delegate",
            described_flag_value(false, "Keep the original method as a delegate."),
        ).with("parameters", parameters).done();
        OperationDescriptor {
            id: "change-signature".to_owned(),
            title: "Change signature".to_owned(),
            description: "Change a method's name, return type, visibility, or parameters and update all call sites".to_owned(),
            kind: OperationKind::Edit,
            languages: languages(),
            target: TargetKind::Position,
            params_schema: Members::new().with("type", Json::text("object")).with(
                "properties",
                properties,
            ).done(),
        }
    }

    /// Starts the operation.
    pub fn run(&self, req: &OperationRequest) -> (r: (Run, Action))
        ensures
            (r.0@, r.1@) == backend::signature_started(req.target@, req.params@),
    {
        start_change_signature(req)
    }
}

// ---------------------------------------------------------------------------
// Laws
// ---------------------------------------------------------------------------

/// The code actions have different ids and different kinds, all of them kinds that
/// the client announces. What is extracted is selected, what is inlined is at a
/// position, and imports are those of a file.
pub proof fn actions_are_told_apart(i: int, j: int)
    requires
        0 <= i < java_actions().len(),
        0 <= j < java_actions().len(),
    ensures
        i != j ==> java_actions()[i].id != java_actions()[j].id && java_actions()[i].action_kind
            != java_actions()[j].action_kind,
        capabilities::announced_kind(java_actions()[i].action_kind),
        java_actions()[i].target == TargetKind::Selection <==> text::begins_with(
            java_actions()[i].action_kind,
            "refactor.extract"@ + "."@,
        ),
        java_actions()[i].target == TargetKind::Position <==> java_actions()[i].action_kind
            == "refactor.inline"@,
        java_actions()[i].target == TargetKind::File <==> java_actions()[i].action_kind
            == "source.organizeImports"@,
{
    reveal_strlit("extract-variable");
    reveal_strlit("extract-constant");
    reveal_strlit("extract-field");
    reveal_strlit("extract-method");
    reveal_strlit("inline");
    reveal_strlit("organize-imports");
    assert("extract-variable"@.len() == 16);
    assert("extract-constant"@.len() == 16);
    assert("extract-field"@.len() == 13);
    assert("extract-method"@.len() == 14);
    assert("inline"@.len() == 6);
    assert("organize-imports"@.len() == 16);
    assert("extract-variable"@[8] != "extract-constant"@[8]);
    assert("extract-variable"@[0] != "organize-imports"@[0]);
    assert("extract-constant"@[0] != "organize-imports"@[0]);
    reveal_strlit("refactor.extract.variable");
    reveal_strlit("refactor.extract.constant");
    reveal_strlit("refactor.extract.field");
    reveal_strlit("refactor.extract.function");
    reveal_strlit("refactor.inline");
    reveal_strlit("source.organizeImports");
    assert("refactor.extract.variable"@.len() == 25);
    assert("refactor.extract.constant"@.len() == 25);
    assert("refactor.extract.field"@.len() == 22);
    assert("refactor.extract.function"@.len() == 25);
    assert("refactor.inline"@.len() == 15);
    assert("source.organizeImports"@.len() == 22);
    assert("refactor.extract.variable"@[17] != "refactor.extract.constant"@[17]);
    assert("refactor.extract.variable"@[17] != "refactor.extract.function"@[17]);
    assert("refactor.extract.constant"@[17] != "refactor.extract.function"@[17]);
    assert("refactor.extract.field"@[0] != "source.organizeImports"@[0]);
    reveal_strlit("refactor.extract");
    reveal_strlit(".");
    let front = "refactor.extract"@ + "."@;
    assert(front.len() == 17);
    assert("refactor.extract.variable"@.subrange(0, 17) =~= front);
    assert("refactor.extract.constant"@.subrange(0, 17) =~= front);
    assert("refactor.extract.field"@.subrange(0, 17) =~= front);
    assert("refactor.extract.function"@.subrange(0, 17) =~= front);
    assert("source.organizeImports"@[0] != front[0]);
    assert("source.organizeImports"@.subrange(0, 17)[0] != front[0]);
    capabilities::lemma_announced(java_actions()[i].action_kind);
}

/// A change of signature is an edit at a position that requires nothing: the name,
/// the return type and the visibility are texts, a delegate is not kept unless it is
/// asked for, and the parameters are a list. Each parameter has a type, a name and a
/// place, and may have a default value.
pub proof fn signatures_are_described()
    ensures
        signature_description().kind == OperationKind::Edit,
        signature_description().target == TargetKind::Position,
        signature_description().languages == java_only(),
        signature_schema().get("required"@) is None,
        ({
            let fields = signature_schema().get("properties"@);
            let parameter = json::inner(json::inner(fields, "parameters"@), "items"@);
            let parts = json::inner(parameter, "properties"@);
            &&& json::inner(json::inner(fields, "name"@), "type"@) == Some(JsonView::Text("string"@))
            &&& json::inner(json::inner(fields, "return_type"@), "type"@) == Some(
                JsonView::Text("string"@),
            )
            &&& json::inner(json::inner(fields, "modifier"@), "type"@) == Some(
                JsonView::Text("string"@),
            )
            &&& json::inner(json::inner(fields, "delegate"@), "default"@) == Some(
                JsonView::Bool(false),
            )
            &&& json::inner(json::inner(fields, "parameters"@), "type"@) == Some(
                JsonView::Text("array"@),
            )
            &&& json::inner(json::inner(parts, "type"@), "type"@) == Some(JsonView::Text("string"@))
            &&& json::inner(json::inner(parts, "name"@), "type"@) == Some(JsonView::Text("string"@))
            &&& json::inner(json::inner(parts, "default_value"@), "type"@) == Some(
                JsonView::Text("string"@),
            )
            &&& json::inner(json::inner(parts, "original_index"@), "type"@) == Some(
                JsonView::Text("integer"@),
            )
            &&& json::inner(parameter, "required"@) == Some(
                JsonView::Array(
                    seq![
                        JsonView::Text("type"@),
                        JsonView::Text("name"@),
                        JsonView::Text("original_index"@),
                    ],
                ),
            )
        }),
{
    broadcast use json::lemma_lookup_of_pushed;

    reveal_strlit("type");
    reveal_strlit("name");
    reveal_strlit("default_value");
    reveal_strlit("original_index");
    reveal_strlit("properties");
    reveal_strlit("required");
    reveal_strlit("return_type");
    reveal_strlit("modifier");
    reveal_strlit("delegate");
    reveal_strlit("parameters");
    reveal_strlit("items");
    reveal_strlit("description");
    reveal_strlit("default");
    reveal_strlit("object");
    reveal_strlit("string");
    reveal_strlit("integer");
    reveal_strlit("array");
    reveal_strlit("boolean");
    assert("type"@.len() == 4);
    assert("name"@.len() == 4);
    assert("default_value"@.len() == 13);
    assert("original_index"@.len() == 14);
    assert("properties"@.len() == 10);
    assert("required"@.len() == 8);
    assert("return_type"@.len() == 11);
    assert("modifier"@.len() == 8);
    assert("delegate"@.len() == 8);
    assert("parameters"@.len() == 10);
    assert("items"@.len() == 5);
    assert("description"@.len() == 11);
    assert("default"@.len() == 7);
    assert("object"@.len() == 6);
    assert("string"@.len() == 6);
    assert("integer"@.len() == 7);
    assert("array"@.len() == 5);
    assert("boolean"@.len() == 7);
    assert("type"@[0] != "name"@[0]);
    assert("properties"@[1] != "parameters"@[1]);
    assert("required"@[0] != "modifier"@[0]);
    assert("required"@[0] != "delegate"@[0]);
    assert("return_type"@[0] != "description"@[0]);
    assert("modifier"@[0] != "delegate"@[0]);
    assert("items"@[0] != "array"@[0]);
    assert("default"@[0] != "integer"@[0]);
    assert("default"@[0] != "boolean"@[0]);
    assert("object"@[0] != "string"@[0]);
    assert("integer"@[0] != "boolean"@[0]);
    assert(json::no_items().push(JsonView::Text("type"@)).push(JsonView::Text("name"@)).push(
        JsonView::Text("original_index"@),
    ) =~= seq![
        JsonView::Text("type"@),
        JsonView::Text("name"@),
        JsonView::Text("original_index"@),
    ]);
}

} // verus!

//! The operations on TypeScript and JavaScript code.
use vstd::prelude::*;

use crate::backend;
use crate::backend::{
    describe_code_action, describe_find_usages, describe_rename, start_code_action,
    start_find_usages, start_rename, Action, ActionOpView, ChoiceRule, ChoiceRuleView, Run,
};
use crate::json::Json;
use crate::language::Language;
use crate::lsp::capabilities;
use crate::operation::{OperationDescriptor, OperationRequest, TargetKind};
use crate::text;
use crate::text::same_text;

verus! {

/// The languages that these operations apply to.
pub open spec fn ts_and_js() -> Seq<Language> {
    seq![Language::TypeScript, Language::JavaScript]
}

/// The languages that these operations apply to.
fn languages() -> (r: Vec<Language>)
    ensures
        r@ == ts_and_js(),
{
    let mut out: Vec<Language> = Vec::new();
    out.push(Language::TypeScript);
    out.push(Language::JavaScript);
    assert(out@ =~= ts_and_js());
    out
}

/// Renames the symbol at a position and updates all references.
#[derive(Debug, Clone, Copy, PartialEq, Eq, Structural)]
pub struct RenameOp;

impl RenameOp {
    /// What the operation says of itself.
    pub fn descriptor(&self) -> (r: OperationDescriptor)
        ensures
            r@ == backend::rename_description(ts_and_js()),
    {
        describe_rename(languages())
    }

    /// Starts the operation.
    pub fn run(&self, req: &OperationRequest) -> (r: (Run, Action))
        ensures
            (r.0@, r.1@) == backend::rename_started(req.target@, req.params@),
    {
        start_rename(req)
    }
}

/// Finds all references to the symbol at a position.
#[derive(Debug, Clone, Copy, PartialEq, Eq, Structural)]
pub struct FindUsagesOp;

impl FindUsagesOp {
    /// What the operation says of itself.
    pub fn descriptor(&self) -> (r: OperationDescriptor)
        ensures
            r@ == backend::usages_description(ts_and_js()),
    {
        describe_find_usages(languages())
    }

    /// Starts the operation.
    pub fn run(&self, req: &OperationRequest) -> (r: (Run, Action))
        ensures
            (r.0@, r.1@) == backend::usages_started(req.target@, req.params@),
    {
        start_find_usages(req)
    }
}

/// An operation that is a code action of the server.
#[derive(Debug, Clone, Copy, PartialEq, Eq)]
pub struct CodeActionOp {
    id: &'static str,
    title: &'static str,
    description: &'static str,
    action_kind: &'static str,
    target: TargetKind,
}

impl View for CodeActionOp {
    type V = ActionOpView;

    closed spec fn view(&self) -> ActionOpView {
        ActionOpView {
            id: self.id@,
            title: self.title@,
            description: self.description@,
            action_kind: self.action_kind@,
            rule: ChoiceRuleView::SubKind,
            target: self.target,
        }
    }
}

/// The code-action operations on TypeScript and JavaScript code.
pub open spec fn ts_actions() -> Seq<ActionOpView> {
    seq![
        ActionOpView {
            id: "extract-function"@,
            title: "Extract to function"@,
            description: "Extract the selection into a new function"@,
            action_kind: "refactor.extract.function"@,
            rule: ChoiceRuleView::SubKind,
            target: TargetKind::Selection,
        },
        ActionOpView {
            id: "extract-constant"@,
            title: "Extract to constant"@,
            description: "Extract the selected expression into a new constant"@,
            action_kind: "refactor.extract.constant"@,
            rule: ChoiceRuleView::SubKind,
            target: TargetKind::Selection,
        },
    ]
}

impl CodeActionOp {
    /// The code-action operations on TypeScript and JavaScript code.
    pub fn ts_set() -> (r: Vec<CodeActionOp>)
        ensures
            r@.map_values(|o: CodeActionOp| o@) == ts_actions(),
    {
        let mut out: Vec<CodeActionOp> = Vec::new();
        out.push(
            CodeActionOp {
                id: "extract-function",
                title: "Extract to function",
                description: "Extract the selection into a new function",
                action_kind: "refactor.extract.function",
                target: TargetKind::Selection,
            },
        );
        out.push(
            CodeActionOp {
                id: "extract-constant",
                title: "Extract to constant",
                description: "Extract the selected expression into a new constant",
                action_kind: "refactor.extract.constant",
                target: TargetKind::Selection,
            },
        );
        assert(out@.map_values(|o: CodeActionOp| o@) =~= ts_actions());
        out
    }

    /// What the operation says of itself.
    pub fn descriptor(&self) -> (r: OperationDescriptor)
        ensures
            r@ == backend::action_description(self@, ts_and_js()),
    {
        describe_code_action(self.id, self.title, self.description, self.target, languages())
    }

    /// Starts the operation.
    pub fn run(&self, req: &OperationRequest) -> (r: (Run, Action))
        ensures
            (r.0@, r.1@) == backend::action_started(
                self@.id,
                self@.action_kind,
                self@.rule,
                req.target@,
            ),
    {
        start_code_action(self.id, self.action_kind, ChoiceRule::SubKind, req)
    }
}

/// How many seconds the server has, once a command is done, to ask for its edit to
/// be applied.
pub const CAPTURE_TIMEOUT_SECONDS: u64 = 5;

/// What a message of the server means while a command is captured.
#[derive(Debug)]
pub enum Heard {
    /// The server asks to have an edit applied, if it names one.
    Edit(Option<Json>),
    /// Something else.
    Other,
}

/// Whether a message asks to have an edit applied.
pub open spec fn asks_to_apply(method: Seq<char>) -> bool {
    method == "workspace/applyEdit"@
}

/// What a message of the server means while a command is captured.
pub fn hear(method: &str, params: &Json) -> (r: Heard)
    ensures
        match r {
            Heard::Edit(Some(edit)) => asks_to_apply(method@) && params@.get("edit"@) == Some(
                edit@,
            ),
            Heard::Edit(None) => asks_to_apply(method@) && params@.get("edit"@) is None,
            Heard::Other => !asks_to_apply(method@),
        },
{
    if !same_text(method, "workspace/applyEdit") {
        return Heard::Other;
    }
    match params.get("edit") {
        Some(edit) => Heard::Edit(Some(edit.copy())),
        None => Heard::Edit(None),
    }
}

// ---------------------------------------------------------------------------
// Laws
// ---------------------------------------------------------------------------

/// The code actions have different ids. What is extracted is selected, and its kind,
/// which the client announces, ends with the word that its id ends with.
pub proof fn actions_are_told_apart(i: int, j: int)
    requires
        0 <= i < ts_actions().len(),
        0 <= j < ts_actions().len(),
    ensures
        i != j ==> ts_actions()[i].id != ts_actions()[j].id,
        ts_actions()[i].target == TargetKind::Selection,
        capabilities::announced_kind(ts_actions()[i].action_kind),
        exists|word: Seq<char>|
            ts_actions()[i].id == #[trigger] ("extract-"@ + word) && ts_actions()[i].action_kind
                == "refactor.extract"@ + "."@ + word,
{
    reveal_strlit("extract-function");
    reveal_strlit("extract-constant");
    assert("extract-function"@.len() == 16);
    assert("extract-constant"@.len() == 16);
    assert("extract-function"@[8] != "extract-constant"@[8]);
    reveal_strlit("refactor.extract.function");
    reveal_strlit("refactor.extract.constant");
    assert("refactor.extract.function"@.len() == 25);
    assert("refactor.extract.constant"@.len() == 25);
    assert("refactor.extract.function"@[17] != "refactor.extract.constant"@[17]);
    reveal_strlit("extract-");
    reveal_strlit("refactor.extract");
    reveal_strlit(".");
    reveal_strlit("function");
    reveal_strlit("constant");
    let front = "refactor.extract"@ + "."@;
    assert(front.len() == 17);
    assert("refactor.extract.function"@.subrange(0, 17) =~= front);
    assert("refactor.extract.constant"@.subrange(0, 17) =~= front);
    assert("extract-"@ + "function"@ =~= "extract-function"@);
    assert("extract-"@ + "constant"@ =~= "extract-constant"@);
    assert(front + "function"@ =~= "refactor.extract.function"@);
    assert(front + "constant"@ =~= "refactor.extract.constant"@);
    assert(text::begins_with(ts_actions()[i].action_kind, front));
    capabilities::lemma_announced(ts_actions()[i].action_kind);
}

} // verus!

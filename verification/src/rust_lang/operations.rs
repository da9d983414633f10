//! The operations on Rust code.
use vstd::prelude::*;

use crate::backend;
use crate::backend::{
    describe_code_action, describe_find_usages, describe_rename, start_code_action,
    start_find_usages, start_rename, Action, ActionOpView, ChoiceRule, ChoiceRuleView, Run,
};
use crate::language::Language;
use crate::lsp::capabilities;
use crate::operation::{OperationDescriptor, OperationRequest, TargetKind};

verus! {

/// The languages that these operations apply to.
pub open spec fn rust_only() -> Seq<Language> {
    seq![Language::Rust]
}

/// The languages that these operations apply to.
fn languages() -> (r: Vec<Language>)
    ensures
        r@ == rust_only(),
{
    let mut out: Vec<Language> = Vec::new();
    out.push(Language::Rust);
    out
}

/// Renames the symbol at a position and updates all references.
#[derive(Debug, Clone, Copy, PartialEq, Eq, Structural)]
pub struct RenameOp;

impl RenameOp {
    /// What the operation says of itself.
    pub fn descriptor(&self) -> (r: OperationDescriptor)
        ensures
            r@ == backend::rename_description(rust_only()),
    {
        describe_rename(languages())
    }

    /// Starts the operation.
    pub fn run(&self, req: &OperationRequest) -> (r: (Run, Action))
        ensures
            (r.0@, r.1@) == backend::rename_started(req.target@, req.params@),
    {
        start_rename(req)
    }
}

/// Finds all references to the symbol at a position.
#[derive(Debug, Clone, Copy, PartialEq, Eq, Structural)]
pub struct FindUsagesOp;

impl FindUsagesOp {
    /// What the operation says of itself.
    pub fn descriptor(&self) -> (r: OperationDescriptor)
        ensures
            r@ == backend::usages_description(rust_only()),
    {
        describe_find_usages(languages())
    }

    /// Starts the operation.
    pub fn run(&self, req: &OperationRequest) -> (r: (Run, Action))
        ensures
            (r.0@, r.1@) == backend::usages_started(req.target@, req.params@),
    {
        start_find_usages(req)
    }
}

/// An operation that is an assist of the server. Assists come under broad kinds, so
/// a word in the title tells them apart.
#[derive(Debug, Clone, Copy, PartialEq, Eq)]
pub struct CodeActionOp {
    id: &'static str,
    title: &'static str,
    description: &'static str,
    action_kind: &'static str,
    title_keyword: Option<&'static str>,
    target: TargetKind,
}

impl View for CodeActionOp {
    type V = ActionOpView;

    closed spec fn view(&self) -> ActionOpView {
        ActionOpView {
            id: self.id@,
            title: self.title@,
            description: self.description@,
            action_kind: self.action_kind@,
            rule: ChoiceRuleView::Keyword {
                keyword: match self.title_keyword {
                    Some(s) => Some(s@),
                    None => None,
                },
            },
            target: self.target,
        }
    }
}

/// The code-action operations on Rust code.
pub open spec fn rust_actions() -> Seq<ActionOpView> {
    seq![
        ActionOpView {
            id: "extract-variable"@,
            title: "Extract to variable"@,
            description: "Extract the selected expression into a new local variable"@,
            action_kind: "refactor.extract"@,
            rule: ChoiceRuleView::Keyword { keyword: Some("variable"@) },
            target: TargetKind::Selection,
        },
        ActionOpView {
            id: "extract-constant"@,
            title: "Extract to constant"@,
            description: "Extract the selected expression into a new constant"@,
            action_kind: "refactor.extract"@,
            rule: ChoiceRuleView::Keyword { keyword: Some("constant"@) },
            target: TargetKind::Selection,
        },
        ActionOpView {
            id: "extract-function"@,
            title: "Extract to function"@,
            description: "Extract the selected statements into a new function"@,
            action_kind: "refactor.extract"@,
            rule: ChoiceRuleView::Keyword { keyword: Some("function"@) },
            target: TargetKind::Selection,
        },
        ActionOpView {
            id: "inline"@,
            title: "Inline"@,
            description: "Inline the local variable at the position"@,
            action_kind: "refactor.inline"@,
            rule: ChoiceRuleView::Keyword { keyword: None },
            target: TargetKind::Position,
        },
    ]
}

impl CodeActionOp {
    /// The code-action operations on Rust code.
    pub fn rust_set() -> (r: Vec<CodeActionOp>)
        ensures
            r@.map_values(|o: CodeActionOp| o@) == rust_actions(),
    {
        let mut out: Vec<CodeActionOp> = Vec::new();
        out.push(
            CodeActionOp {
                id: "extract-variable",
                title: "Extract to variable",
                description: "Extract the selected expression into a new local variable",
                action_kind: "refactor.extract",
                title_keyword: Some("variable"),
                target: TargetKind::Selection,
            },
        );
        out.push(
            CodeActionOp {
                id: "extract-constant",
                title: "Extract to constant",
                description: "Extract the selected expression into a new constant",
                action_kind: "refactor.extract",
                title_keyword: Some("constant"),
                target: TargetKind::Selection,
            },
        );
        out.push(
            CodeActionOp {
                id: "extract-function",
                title: "Extract to function",
                description: "Extract the selected statements into a new function",
                action_kind: "refactor.extract",
                title_keyword: Some("function"),
                target: TargetKind::Selection,
            },
        );
        out.push(
            CodeActionOp {
                id: "inline",
                title: "Inline",
                description: "Inline the local variable at the position",
                action_kind: "refactor.inline",
                title_keyword: None,
                target: TargetKind::Position,
            },
        );
        assert(out@.map_values(|o: CodeActionOp| o@) =~= rust_actions());
        out
    }

    /// What the operation says of itself.
    pub fn descriptor(&self) -> (r: OperationDescriptor)
        ensures
            r@ == backend::action_description(self@, rust_only()),
    {
        describe_code_action(self.id, self.title, self.description, self.target, languages())
    }

    /// Starts the operation.
    pub fn run(&self, req: &OperationRequest) -> (r: (Run, Action))
        ensures
            (r.0@, r.1@) == backend::action_started(
                self@.id,
                self@.action_kind,
                self@.rule,
                req.target@,
            ),
    {
        let rule = ChoiceRule::Keyword {
            keyword: match self.title_keyword {
                Some(s) => Some(s.to_owned()),
                None => None,
            },
        };
        start_code_action(self.id, self.action_kind, rule, req)
    }
}

// ---------------------------------------------------------------------------
// Laws
// ---------------------------------------------------------------------------

/// The code actions have different ids, and kinds that the client announces. What is
/// extracted is selected, and is told by the word that its id ends with; what is
/// inlined is at a position.
pub proof fn actions_are_told_apart(i: int, j: int)
    requires
        0 <= i < rust_actions().len(),
        0 <= j < rust_actions().len(),
    ensures
        i != j ==> rust_actions()[i].id != rust_actions()[j].id,
        capabilities::announced_kind(rust_actions()[i].action_kind),
        rust_actions()[i].target == TargetKind::Selection <==> rust_actions()[i].action_kind
            == "refactor.extract"@,
        rust_actions()[i].target == TargetKind::Position <==> rust_actions()[i].action_kind
            == "refactor.inline"@,
        rust_actions()[i].target == TargetKind::Selection ==> (rust_actions()[i].rule
            matches ChoiceRuleView::Keyword { keyword: Some(word) } && rust_actions()[i].id
            == "extract-"@ + word),
{
    reveal_strlit("extract-variable");
    reveal_strlit("extract-constant");
    reveal_strlit("extract-function");
    reveal_strlit("inline");
    assert("extract-variable"@.len() == 16);
    assert("extract-constant"@.len() == 16);
    assert("extract-function"@.len() == 16);
    assert("inline"@.len() == 6);
    assert("extract-variable"@[8] != "extract-constant"@[8]);
    assert("extract-variable"@[8] != "extract-function"@[8]);
    assert("extract-constant"@[8] != "extract-function"@[8]);
    reveal_strlit("variable");
    reveal_strlit("constant");
    reveal_strlit("function");
    assert("variable"@.len() == 8);
    assert("constant"@.len() == 8);
    assert("function"@.len() == 8);
    assert("variable"@[0] != "constant"@[0]);
    assert("variable"@[0] != "function"@[0]);
    assert("constant"@[0] != "function"@[0]);
    reveal_strlit("extract-");
    reveal_strlit("refactor.extract");
    reveal_strlit("refactor.inline");
    assert("refactor.extract"@.len() == 16);
    assert("refactor.inline"@.len() == 15);
    assert("extract-"@ + "variable"@ =~= "extract-variable"@);
    assert("extract-"@ + "constant"@ =~= "extract-constant"@);
    assert("extract-"@ + "function"@ =~= "extract-function"@);
    capabilities::lemma_announced(rust_actions()[i].action_kind);
}

} // verus!

//! The operations that the Java backend contributes.
use vstd::prelude::*;

use crate::backend;
use crate::backend::{Action, ActionOpView, ActionView, Run, RunView};
use crate::json::JsonView;
use crate::java::operations;
use crate::java::operations::{ChangeSignatureOp, CodeActionOp, FindUsagesOp, RenameOp};
use crate::operation::{
    DescriptorView, OperationDescriptor, OperationRequest, Registered, TargetView,
};

verus! {

/// An operation on Java code.
#[derive(Debug, Clone, Copy, PartialEq, Eq)]
pub enum JavaOp {
    /// A rename.
    Rename(RenameOp),
    /// A search for usages.
    FindUsages(FindUsagesOp),
    /// A change of signature.
    ChangeSignature(ChangeSignatureOp),
    /// A code action.
    CodeAction(CodeActionOp),
}

impl JavaOp {
    /// What the operation says of itself.
    pub open spec fn description(self) -> DescriptorView {
        match self {
            JavaOp::Rename(_) => backend::rename_description(operations::java_only()),
            JavaOp::FindUsages(_) => backend::usages_description(operations::java_only()),
            JavaOp::ChangeSignature(_) => operations::signature_description(),
            JavaOp::CodeAction(op) => backend::action_description(op@, operations::java_only()),
        }
    }

    /// How a run of the operation starts.
    pub open spec fn started(self, target: TargetView, params: JsonView) -> backend::Started {
        match self {
            JavaOp::Rename(_) => backend::rename_started(target, params),
            JavaOp::FindUsages(_) => backend::usages_started(target, params),
            JavaOp::ChangeSignature(_) => backend::signature_started(target, params),
            JavaOp::CodeAction(op) => backend::action_started(
                op@.id,
                op@.action_kind,
                op@.rule,
                target,
            ),
        }
    }

    /// What the operation says of itself.
    pub fn descriptor(&self) -> (r: OperationDescriptor)
        ensures
            r@ == self.description(),
    {
        match self {
            JavaOp::Rename(op) => op.descriptor(),
            JavaOp::FindUsages(op) => op.descriptor(),
            JavaOp::ChangeSignature(op) => op.descriptor(),
            JavaOp::CodeAction(op) => op.descriptor(),
        }
    }

    /// Starts the operation.
    pub fn run(&self, req: &OperationRequest) -> (r: (Run, Action))
        ensures
            (r.0@, r.1@) == self.started(req.target@, req.params@),
    {
        match self {
            JavaOp::Rename(op) => op.run(req),
            JavaOp::FindUsages(op) => op.run(req),
            JavaOp::ChangeSignature(op) => op.run(req),
            JavaOp::CodeAction(op) => op.run(req),
        }
    }
}

/// What the operations say of themselves.
pub open spec fn contributed() -> Seq<DescriptorView> {
    seq![
        backend::rename_description(operations::java_only()),
        backend::usages_description(operations::java_only()),
        operations::signature_description(),
    ] + operations::java_actions().map_values(
        |op: ActionOpView| backend::action_description(op, operations::java_only()),
    )
}

/// An operation with what it says of itself.
fn registered(op: JavaOp) -> (r: Registered<JavaOp>)
    ensures
        r.operation == op,
        r.descriptor@ == op.description(),
{
    Registered { descriptor: op.descriptor(), operation: op }
}

/// The operations that the backend contributes.
pub fn operations() -> (r: Vec<Registered<JavaOp>>)
    ensures
        r@.map_values(|o: Registered<JavaOp>| o.descriptor@) == contributed(),
        forall|i: int|
            0 <= i < r@.len() ==> (#[trigger] r@[i]).descriptor@ == r@[i].operation.description(),
{
    let mut out: Vec<Registered<JavaOp>> = Vec::new();
    out.push(registered(JavaOp::Rename(RenameOp)));
    out.push(registered(JavaOp::FindUsages(FindUsagesOp)));
    out.push(registered(JavaOp::ChangeSignature(ChangeSignatureOp)));
    let set = CodeActionOp::java_set();
    let ghost want = contributed();
    let mut i: usize = 0;
    assert(set@.map_values(|o: CodeActionOp| o@).len() == set@.len());
    assert(out@.map_values(|o: Registered<JavaOp>| o.descriptor@) =~= want.take(3));
    while i < set.len()
        invariant
            i <= set@.len(),
            set@.map_values(|o: CodeActionOp| o@) == operations::java_actions(),
            set@.len() == operations::java_actions().len(),
            want == contributed(),
            out@.map_values(|o: Registered<JavaOp>| o.descriptor@) == want.take(3 + i),
            forall|k: int|
                0 <= k < out@.len() ==> (#[trigger] out@[k]).descriptor@
                    == out@[k].operation.description(),
        decreases set@.len() - i,
    {
        let ghost before = out@.map_values(|o: Registered<JavaOp>| o.descriptor@);
        out.push(registered(JavaOp::CodeAction(set[i])));
        proof {
            assert(set@.map_values(|o: CodeActionOp| o@)[i as int] == set@[i as int]@);
            assert(out@.map_values(|o: Registered<JavaOp>| o.descriptor@) =~= before.push(
                want[3 + i],
            ));
            assert(want.take(3 + i + 1) =~= want.take(3 + i).push(want[3 + i]));
        }
        i += 1;
    }
    assert(want.take(3 + i) =~= want);
    out
}

// ---------------------------------------------------------------------------
// Laws
// ---------------------------------------------------------------------------

/// An operation starts at a target of the kind that it says of itself, by opening the
/// file of the target; a rename wants a name besides. It starts as what it is: a code
/// action as one of its own id and kind.
pub proof fn operations_start_at_their_targets(op: JavaOp, target: TargetView, params: JsonView)
    ensures
        target.kind() == op.description().target && target.file() is Some && (op is Rename ==> (
        params.get_text("new_name"@) matches Some(name) && name.len() > 0)) ==> op.started(
            target,
            params,
        ).1 == (ActionView::Open { file: target.file().unwrap() }),
        op is Rename ==> (op.started(target, params).0 is Rename || op.started(target, params).1
            is Fail),
        op is FindUsages ==> (op.started(target, params).0 is FindUsages || op.started(
            target,
            params,
        ).1 is Fail),
        op is ChangeSignature ==> (op.started(target, params).0 is Signature || op.started(
            target,
            params,
        ).1 is Fail),
        op matches JavaOp::CodeAction(action) ==> match op.started(target, params).0 {
            RunView::ListActions { id, kind, rule, .. } => id == op.description().id && kind
                == action@.action_kind && rule == action@.rule,
            _ => op.started(target, params).1 is Fail,
        },
{
}

/// The ids of the code actions that the backend has.
pub open spec fn action_ids() -> Seq<Seq<char>> {
    seq!["extract-variable"@, "extract-constant"@, "extract-field"@, "extract-method"@, "inline"@, "organize-imports"@]
}

/// Every operation is contributed, under an id of its own: the rename, the search for
/// usages, the change of signature, and each code action that the backend has.
pub proof fn every_operation_is_contributed(id: Seq<char>, i: int, j: int)
    requires
        0 <= i < j < contributed().len(),
    ensures
        contributed().contains(backend::rename_description(operations::java_only())),
        contributed().contains(backend::usages_description(operations::java_only())),
        contributed().contains(operations::signature_description()),
        contributed()[i].id != contributed()[j].id,
        action_ids().contains(id) ==> exists|k: int|
            0 <= k < contributed().len() && (#[trigger] contributed()[k]).id == id,
        contributed()[i].languages == operations::java_only(),
        contributed()[j].languages == operations::java_only(),
{
    reveal_strlit("rename");
    reveal_strlit("find-usages");
    reveal_strlit("change-signature");
    reveal_strlit("extract-variable");
    reveal_strlit("extract-constant");
    reveal_strlit("extract-field");
    reveal_strlit("extract-method");
    reveal_strlit("inline");
    reveal_strlit("organize-imports");
    assert("rename"@.len() == 6);
    assert("find-usages"@.len() == 11);
    assert("change-signature"@.len() == 16);
    assert("extract-variable"@.len() == 16);
    assert("extract-constant"@.len() == 16);
    assert("extract-field"@.len() == 13);
    assert("extract-method"@.len() == 14);
    assert("inline"@.len() == 6);
    assert("organize-imports"@.len() == 16);
    assert("rename"@[0] != "inline"@[0]);
    assert("change-signature"@[0] != "extract-variable"@[0]);
    assert("change-signature"@[0] != "extract-constant"@[0]);
    assert("change-signature"@[0] != "organize-imports"@[0]);
    assert("extract-variable"@[8] != "extract-constant"@[8]);
    assert("extract-variable"@[0] != "organize-imports"@[0]);
    assert("extract-constant"@[0] != "organize-imports"@[0]);
    let all = contributed();
    let actions = operations::java_actions();
    let wanted = action_ids();
    assert(all[0] == backend::rename_description(operations::java_only()));
    assert(all[1] == backend::usages_description(operations::java_only()));
    assert(all[2] == operations::signature_description());
    assert(actions[0].id == "extract-variable"@);
    assert(actions[1].id == "extract-constant"@);
    assert(actions[2].id == "extract-field"@);
    assert(actions[3].id == "extract-method"@);
    assert(actions[4].id == "inline"@);
    assert(actions[5].id == "organize-imports"@);
    assert(wanted[0] == "extract-variable"@);
    assert(wanted[1] == "extract-constant"@);
    assert(wanted[2] == "extract-field"@);
    assert(wanted[3] == "extract-method"@);
    assert(wanted[4] == "inline"@);
    assert(wanted[5] == "organize-imports"@);
    assert forall|k: int| 0 <= k < actions.len() implies (#[trigger] all[k + 3]).id
        == actions[k].id && all[k + 3].languages == operations::java_only() by {}
    assert(forall|k: int| 0 <= k < wanted.len() ==> #[trigger] all[k + 3].id == wanted[k]);
    if wanted.contains(id) {
        let k = wanted.index_of(id);
        assert(all[k + 3].id == id);
    }
    if i >= 3 {
        assert(all[(i - 3) + 3].id == actions[i - 3].id);
    }
    if j >= 3 {
        assert(all[(j - 3) + 3].id == actions[j - 3].id);
    }
}

} // verus!

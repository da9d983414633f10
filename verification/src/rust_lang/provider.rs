//! The operations that the Rust backend contributes.
use vstd::prelude::*;

use crate::backend;
use crate::backend::{Action, ActionOpView, ActionView, Run, RunView};
use crate::json::JsonView;
use crate::rust_lang::operations;
use crate::rust_lang::operations::{CodeActionOp, FindUsagesOp, RenameOp};
use crate::operation::{
    DescriptorView, OperationDescriptor, OperationRequest, Registered, TargetView,
};

verus! {

/// An operation on Rust code.
#[derive(Debug, Clone, Copy, PartialEq, Eq)]
pub enum RustOp {
    /// A rename.
    Rename(RenameOp),
    /// A search for usages.
    FindUsages(FindUsagesOp),
    /// A code action.
    CodeAction(CodeActionOp),
}

impl RustOp {
    /// What the operation says of itself.
    pub open spec fn description(self) -> DescriptorView {
        match self {
            RustOp::Rename(_) => backend::rename_description(operations::rust_only()),
            RustOp::FindUsages(_) => backend::usages_description(operations::rust_only()),
            RustOp::CodeAction(op) => backend::action_description(op@, operations::rust_only()),
        }
    }

    /// How a run of the operation starts.
    pub open spec fn started(self, target: TargetView, params: JsonView) -> backend::Started {
        match self {
            RustOp::Rename(_) => backend::rename_started(target, params),
            RustOp::FindUsages(_) => backend::usages_started(target, params),
            RustOp::CodeAction(op) => backend::action_started(
                op@.id,
                op@.action_kind,
                op@.rule,
                target,
            ),
        }
    }

    /// What the operation says of itself.
    pub fn descriptor(&self) -> (r: OperationDescriptor)
        ensures
            r@ == self.description(),
    {
        match self {
            RustOp::Rename(op) => op.descriptor(),
            RustOp::FindUsages(op) => op.descriptor(),
            RustOp::CodeAction(op) => op.descriptor(),
        }
    }

    /// Starts the operation.
    pub fn run(&self, req: &OperationRequest) -> (r: (Run, Action))
        ensures
            (r.0@, r.1@) == self.started(req.target@, req.params@),
    {
        match self {
            RustOp::Rename(op) => op.run(req),
            RustOp::FindUsages(op) => op.run(req),
            RustOp::CodeAction(op) => op.run(req),
        }
    }
}

/// What the operations say of themselves.
pub open spec fn contributed() -> Seq<DescriptorView> {
    seq![
        backend::rename_description(operations::rust_only()),
        backend::usages_description(operations::rust_only()),
    ] + operations::rust_actions().map_values(
        |op: ActionOpView| backend::action_description(op, operations::rust_only()),
    )
}

/// An operation with what it says of itself.
fn registered(op: RustOp) -> (r: Registered<RustOp>)
    ensures
        r.operation == op,
        r.descriptor@ == op.description(),
{
    Registered { descriptor: op.descriptor(), operation: op }
}

/// The operations that the backend contributes.
pub fn operations() -> (r: Vec<Registered<RustOp>>)
    ensures
        r@.map_values(|o: Registered<RustOp>| o.descriptor@) == contributed(),
        forall|i: int|
            0 <= i < r@.len() ==> (#[trigger] r@[i]).descriptor@ == r@[i].operation.description(),
{
    let mut out: Vec<Registered<RustOp>> = Vec::new();
    out.push(registered(RustOp::Rename(RenameOp)));
    out.push(registered(RustOp::FindUsages(FindUsagesOp)));
    let set = CodeActionOp::rust_set();
    let ghost want = contributed();
    let mut i: usize = 0;
    assert(set@.map_values(|o: CodeActionOp| o@).len() == set@.len());
    assert(out@.map_values(|o: Registered<RustOp>| o.descriptor@) =~= want.take(2));
    while i < set.len()
        invariant
            i <= set@.len(),
            set@.map_values(|o: CodeActionOp| o@) == operations::rust_actions(),
            set@.len() == operations::rust_actions().len(),
            want == contributed(),
            out@.map_values(|o: Registered<RustOp>| o.descriptor@) == want.take(2 + i),
            forall|k: int|
                0 <= k < out@.len() ==> (#[trigger] out@[k]).descriptor@
                    == out@[k].operation.description(),
        decreases set@.len() - i,
    {
        let ghost before = out@.map_values(|o: Registered<RustOp>| o.descriptor@);
        out.push(registered(RustOp::CodeAction(set[i])));
        proof {
            assert(set@.map_values(|o: CodeActionOp| o@)[i as int] == set@[i as int]@);
            assert(out@.map_values(|o: Registered<RustOp>| o.descriptor@) =~= before.push(
                want[2 + i],
            ));
            assert(want.take(2 + i + 1) =~= want.take(2 + i).push(want[2 + i]));
        }
        i += 1;
    }
    assert(want.take(2 + i) =~= want);
    out
}

// ---------------------------------------------------------------------------
// Laws
// ---------------------------------------------------------------------------

/// An operation starts at a target of the kind that it says of itself, by opening the
/// file of the target; a rename wants a name besides. It starts as what it is: a code
/// action as one of its own id and kind.
pub proof fn operations_start_at_their_targets(op: RustOp, target: TargetView, params: JsonView)
    ensures
        target.kind() == op.description().target && target.file() is Some && (op is Rename ==> (
        params.get_text("new_name"@) matches Some(name) && name.len() > 0)) ==> op.started(
            target,
            params,
        ).1 == (ActionView::Open { file: target.file().unwrap() }),
        op is Rename ==> (op.started(target, params).0 is Rename || op.started(target, params).1
            is Fail),
        op is FindUsages ==> (op.started(target, params).0 is FindUsages || op.started(
            target,
            params,
        ).1 is Fail),
        op matches RustOp::CodeAction(action) ==> match op.started(target, params).0 {
            RunView::ListActions { id, kind, rule, .. } => id == op.description().id && kind
                == action@.action_kind && rule == action@.rule,
            _ => op.started(target, params).1 is Fail,
        },
{
}

/// The ids of the code actions that the backend has.
pub open spec fn action_ids() -> Seq<Seq<char>> {
    seq!["extract-variable"@, "extract-constant"@, "extract-function"@, "inline"@]
}

/// Every operation is contributed, under an id of its own: the rename, the search for
/// usages, and each code action that the backend has.
pub proof fn every_operation_is_contributed(id: Seq<char>, i: int, j: int)
    requires
        0 <= i < j < contributed().len(),
    ensures
        contributed().contains(backend::rename_description(operations::rust_only())),
        contributed().contains(backend::usages_description(operations::rust_only())),
        contributed()[i].id != contributed()[j].id,
        action_ids().contains(id) ==> exists|k: int|
            0 <= k < contributed().len() && (#[trigger] contributed()[k]).id == id,
        contributed()[i].languages == operations::rust_only(),
        contributed()[j].languages == operations::rust_only(),
{
    reveal_strlit("rename");
    reveal_strlit("find-usages");
    reveal_strlit("extract-variable");
    reveal_strlit("extract-constant");
    reveal_strlit("extract-function");
    reveal_strlit("inline");
    assert("rename"@.len() == 6);
    assert("find-usages"@.len() == 11);
    assert("extract-variable"@.len() == 16);
    assert("extract-constant"@.len() == 16);
    assert("extract-function"@.len() == 16);
    assert("inline"@.len() == 6);
    assert("rename"@[0] != "inline"@[0]);
    assert("extract-variable"@[8] != "extract-constant"@[8]);
    assert("extract-variable"@[8] != "extract-function"@[8]);
    assert("extract-constant"@[8] != "extract-function"@[8]);
    let all = contributed();
    let actions = operations::rust_actions();
    let wanted = action_ids();
    assert(all[0] == backend::rename_description(operations::rust_only()));
    assert(all[1] == backend::usages_description(operations::rust_only()));
    assert(actions[0].id == "extract-variable"@);
    assert(actions[1].id == "extract-constant"@);
    assert(actions[2].id == "extract-function"@);
    assert(actions[3].id == "inline"@);
    assert(wanted[0] == "extract-variable"@);
    assert(wanted[1] == "extract-constant"@);
    assert(wanted[2] == "extract-function"@);
    assert(wanted[3] == "inline"@);
    assert forall|k: int| 0 <= k < actions.len() implies (#[trigger] all[k + 2]).id
        == actions[k].id && all[k + 2].languages == operations::rust_only() by {}
    assert(forall|k: int| 0 <= k < wanted.len() ==> #[trigger] all[k + 2].id == wanted[k]);
    if wanted.contains(id) {
        let k = wanted.index_of(id);
        assert(all[k + 2].id == id);
    }
    if i >= 2 {
        assert(all[(i - 2) + 2].id == actions[i - 2].id);
    }
    if j >= 2 {
        assert(all[(j - 2) + 2].id == actions[j - 2].id);
    }
}

} // verus!

//! What the Java server sends, in the terms of the edit model.
use vstd::prelude::*;

use crate::edit::WorkspaceEdit;
use crate::java::error::{JavaError, JavaErrorView};
use crate::lsp::convert;
use crate::lsp::convert::LspWorkspaceEdit;

verus! {

/// The edit model of an edit of the Java server; `None` stands for no edit at
/// all. An edit with an operation on a file is refused, with the kind of the
/// first such operation.
pub fn to_core_workspace_edit(value: &Option<LspWorkspaceEdit>) -> (r: Result<
    WorkspaceEdit,
    JavaError,
>)
    ensures
        match *value {
            None => r matches Ok(e) && e@ == convert::edit_of_groups(seq![]),
            Some(lsp) => match (r, convert::first_resource(convert::document_list(lsp))) {
                (Ok(e), None) => e@ == convert::edit_of_groups(convert::edit_groups(lsp)),
                (Err(e), Some(kind)) => e@ == JavaErrorView::UnsupportedFileOperation(kind),
                _ => false,
            },
        },
{
    match convert::to_core_workspace_edit(value) {
        Ok(edit) => Ok(edit),
        Err(kind) => Err(JavaError::UnsupportedFileOperation(kind)),
    }
}

} // verus!

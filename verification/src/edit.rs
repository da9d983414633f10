//! The workspace-edit model.
//!
//! A [`WorkspaceEdit`] is what every edit operation returns: text changes across
//! files in line and character coordinates, with the encoding that the
//! characters are counted in, and file operations that follow them.
use vstd::prelude::*;

use crate::path;
use crate::path::PathBuf;


pub mod applier;
pub mod position;
pub mod rewrite;

pub use applier::{AppliedEdit, EditApplier, FileDiff, FileStep, Plan};
pub use position::{identifier_at, text_in_range};



verus! {

/// How the `character` of a [`Position`] is counted.
#[derive(Debug, Clone, Copy, PartialEq, Eq, Structural)]
pub enum PositionEncoding {
    /// UTF-8 bytes.
    Utf8,
    /// UTF-16 code units.
    Utf16,
    /// Unicode scalar values.
    Utf32,
}

/// A zero-based position in a text.
#[derive(Debug, Clone, Copy, PartialEq, Eq, Structural)]
pub struct Position {
    /// Zero-based line number.
    pub line: u32,
    /// Zero-based offset in the line, counted by the edit's encoding.
    pub character: u32,
}

impl Position {
    /// The position at `line` and `character`.
    pub fn new(line: u32, character: u32) -> (r: Self)
        ensures
            r == (Position { line, character }),
    {
        Position { line, character }
    }
}

/// A range of a text: `start` belongs to it, `end` does not.
#[derive(Debug, Clone, Copy, PartialEq, Eq, Structural)]
pub struct Range {
    /// First position.
    pub start: Position,
    /// Position behind the last.
    pub end: Position,
}

impl Range {
    /// The range from `start` to `end`.
    pub fn new(start: Position, end: Position) -> (r: Self)
        ensures
            r == (Range { start, end }),
    {
        Range { start, end }
    }
}

/// A replacement of one range.
#[derive(Debug, Clone, PartialEq, Eq)]
pub struct TextEdit {
    /// The range to replace.
    pub range: Range,
    /// What takes its place; empty to delete.
    pub new_text: String,
}

/// What a [`TextEdit`] says.
pub struct TextEditView {
    pub range: Range,
    pub new_text: Seq<char>,
}

impl View for TextEdit {
    type V = TextEditView;

    open spec fn view(&self) -> TextEditView {
        TextEditView { range: self.range, new_text: self.new_text@ }
    }
}

/// The edits to one file.
#[derive(Debug, Clone, PartialEq, Eq)]
pub struct FileEdit {
    /// The file, relative to the project root unless absolute.
    pub path: PathBuf,
    /// The edits, in any order.
    pub edits: Vec<TextEdit>,
}

/// What a [`FileEdit`] says.
pub struct FileEditView {
    pub path: Seq<char>,
    pub edits: Seq<TextEditView>,
}

/// What a list of edits says.
pub open spec fn edit_views(edits: Seq<TextEdit>) -> Seq<TextEditView> {
    edits.map_values(|e: TextEdit| e@)
}

impl View for FileEdit {
    type V = FileEditView;

    open spec fn view(&self) -> FileEditView {
        FileEditView { path: self.path@, edits: edit_views(self.edits@) }
    }
}

/// An operation on a whole file.
#[derive(Debug, Clone, PartialEq, Eq)]
pub enum FileOperation {
    /// Create an empty file.
    Create {
        /// Path to create.
        path: PathBuf,
    },
    /// Rename or move a file.
    Rename {
        /// Existing path.
        from: PathBuf,
        /// New path.
        to: PathBuf,
    },
    /// Delete a file.
    Delete {
        /// Path to delete.
        path: PathBuf,
    },
}

/// What a [`FileOperation`] says.
pub enum FileOperationView {
    Create { path: Seq<char> },
    Rename { from: Seq<char>, to: Seq<char> },
    Delete { path: Seq<char> },
}

impl View for FileOperation {
    type V = FileOperationView;

    open spec fn view(&self) -> FileOperationView {
        match self {
            FileOperation::Create { path } => FileOperationView::Create { path: path@ },
            FileOperation::Rename { from, to } => FileOperationView::Rename {
                from: from@,
                to: to@,
            },
            FileOperation::Delete { path } => FileOperationView::Delete { path: path@ },
        }
    }
}

/// An ordered set of changes across files.
#[derive(Debug, Clone, PartialEq, Eq)]
pub struct WorkspaceEdit {
    /// How positions in this edit are counted.
    pub encoding: PositionEncoding,
    /// The text edits, file by file.
    pub files: Vec<FileEdit>,
    /// File operations, which follow the text edits.
    pub file_ops: Vec<FileOperation>,
}

/// What a [`WorkspaceEdit`] says.
#[verifier::ext_equal]
pub struct WorkspaceEditView {
    pub encoding: PositionEncoding,
    pub files: Seq<FileEditView>,
    pub file_ops: Seq<FileOperationView>,
}

impl View for WorkspaceEdit {
    type V = WorkspaceEditView;

    open spec fn view(&self) -> WorkspaceEditView {
        WorkspaceEditView {
            encoding: self.encoding,
            files: self.files@.map_values(|f: FileEdit| f@),
            file_ops: self.file_ops@.map_values(|o: FileOperation| o@),
        }
    }
}

/// `p` moved from under `from_root` to the same place under `to_root`; a path
/// elsewhere stays.
pub open spec fn retargeted_path(
    p: Seq<char>,
    from_root: Seq<char>,
    to_root: Seq<char>,
) -> Seq<char> {
    match path::stripped(p, from_root) {
        Some(rel) => path::joined(to_root, rel),
        None => p,
    }
}

/// A file operation with its paths moved.
pub open spec fn retargeted_op(
    op: FileOperationView,
    from_root: Seq<char>,
    to_root: Seq<char>,
) -> FileOperationView {
    match op {
        FileOperationView::Create { path } => FileOperationView::Create {
            path: retargeted_path(path, from_root, to_root),
        },
        FileOperationView::Rename { from, to } => FileOperationView::Rename {
            from: retargeted_path(from, from_root, to_root),
            to: retargeted_path(to, from_root, to_root),
        },
        FileOperationView::Delete { path } => FileOperationView::Delete {
            path: retargeted_path(path, from_root, to_root),
        },
    }
}

/// An edit with all its paths moved.
pub open spec fn retargeted(
    edit: WorkspaceEditView,
    from_root: Seq<char>,
    to_root: Seq<char>,
) -> WorkspaceEditView {
    WorkspaceEditView {
        encoding: edit.encoding,
        files: edit.files.map_values(
            |f: FileEditView|
                FileEditView {
                    path: retargeted_path(f.path, from_root, to_root),
                    edits: f.edits,
                },
        ),
        file_ops: edit.file_ops.map_values(
            |o: FileOperationView| retargeted_op(o, from_root, to_root),
        ),
    }
}

/// `p` moved from under `from_root` to the same place under `to_root`; a path
/// elsewhere stays.
pub fn retarget_path(p: &PathBuf, from_root: &PathBuf, to_root: &PathBuf) -> (r: PathBuf)
    ensures
        r@ == retargeted_path(p@, from_root@, to_root@),
{
    match p.strip_prefix(from_root) {
        Some(rel) => to_root.join(&rel),
        None => p.clone(),
    }
}

impl WorkspaceEdit {
    /// An edit that changes nothing.
    pub fn empty() -> (r: Self)
        ensures
            r@ == (WorkspaceEditView {
                encoding: PositionEncoding::Utf16,
                files: seq![],
                file_ops: seq![],
            }),
    {
        WorkspaceEdit {
            encoding: PositionEncoding::Utf16,
            files: Vec::new(),
            file_ops: Vec::new(),
        }
    }

    /// Whether this edit changes nothing.
    pub fn is_empty(&self) -> (r: bool)
        ensures
            r == ((forall|i: int| 0 <= i < self@.files.len() ==> self@.files[i].edits.len() == 0)
                && self@.file_ops.len() == 0),
    {
        let mut i: usize = 0;
        while i < self.files.len()
            invariant
                i <= self.files@.len(),
                forall|j: int| 0 <= j < i ==> self@.files[j].edits.len() == 0,
            decreases self.files@.len() - i,
        {
            assert(self@.files[i as int].edits.len() == self.files@[i as int].edits@.len());
            if self.files[i].edits.len() > 0 {
                return false;
            }
            i += 1;
        }
        self.file_ops.len() == 0
    }

    /// Moves every path under `from_root` to the same place under `to_root`, so
    /// that an edit computed on one checkout can be applied to another. Paths
    /// elsewhere stay.
    pub fn retarget(&mut self, from_root: &PathBuf, to_root: &PathBuf)
        ensures
            final(self)@ == retargeted(old(self)@, from_root@, to_root@),
    {
        let mut i: usize = 0;
        while i < self.files.len()
            invariant
                i <= self.files@.len(),
                self.files@.len() == old(self).files@.len(),
                self.file_ops@ == old(self).file_ops@,
                self.encoding == old(self).encoding,
                forall|j: int|
                    #![trigger self.files@[j]]
                    0 <= j < i ==> self.files@[j].path@ == retargeted_path(
                        old(self).files@[j].path@,
                        from_root@,
                        to_root@,
                    ) && self.files@[j].edits == old(self).files@[j].edits,
                forall|j: int|
                    #![trigger self.files@[j]]
                    i <= j < self.files@.len() ==> self.files@[j] == old(self).files@[j],
            decreases self.files@.len() - i,
        {
            let moved = retarget_path(&self.files[i].path, from_root, to_root);
            self.files[i].path = moved;
            i += 1;
        }
        let mut k: usize = 0;
        while k < self.file_ops.len()
            invariant
                k <= self.file_ops@.len(),
                self.file_ops@.len() == old(self).file_ops@.len(),
                self.encoding == old(self).encoding,
                self.files@.len() == old(self).files@.len(),
                forall|j: int|
                    #![trigger self.files@[j]]
                    0 <= j < self.files@.len() ==> self.files@[j].path@ == retargeted_path(
                        old(self).files@[j].path@,
                        from_root@,
                        to_root@,
                    ) && self.files@[j].edits == old(self).files@[j].edits,
                forall|j: int|
                    #![trigger self.file_ops@[j]]
                    0 <= j < k ==> self.file_ops@[j]@ == retargeted_op(
                        old(self).file_ops@[j]@,
                        from_root@,
                        to_root@,
                    ),
                forall|j: int|
                    #![trigger self.file_ops@[j]]
                    k <= j < self.file_ops@.len() ==> self.file_ops@[j] == old(self).file_ops@[j],
            decreases self.file_ops@.len() - k,
        {
            let moved = match &self.file_ops[k] {
                FileOperation::Create { path } => FileOperation::Create {
                    path: retarget_path(path, from_root, to_root),
                },
                FileOperation::Rename { from, to } => FileOperation::Rename {
                    from: retarget_path(from, from_root, to_root),
                    to: retarget_path(to, from_root, to_root),
                },
                FileOperation::Delete { path } => FileOperation::Delete {
                    path: retarget_path(path, from_root, to_root),
                },
            };
            self.file_ops[k] = moved;
            k += 1;
        }
        proof {
            let want = retargeted(old(self)@, from_root@, to_root@);
            assert forall|j: int| 0 <= j < self@.files.len() implies self@.files[j]
                == want.files[j] by {
                assert(self.files@[j]@.path == want.files[j].path);
            }
            assert(self@.files =~= want.files);
            assert forall|j: int| 0 <= j < self@.file_ops.len() implies self@.file_ops[j]
                == want.file_ops[j] by {
                assert(self.file_ops@[j]@ == want.file_ops[j]);
            }
            assert(self@.file_ops =~= want.file_ops);
        }
    }
}

// ---------------------------------------------------------------------------
// Laws
// ---------------------------------------------------------------------------

/// A path under the first root lands under the second, at the same place.
pub proof fn retarget_keeps_relative_place(
    p: Seq<char>,
    from_root: Seq<char>,
    to_root: Seq<char>,
)
    requires
        from_root.len() > 0,
        to_root.len() > 0,
        path::under(p, from_root),
    ensures
        path::under(retargeted_path(p, from_root, to_root), to_root),
        path::components(retargeted_path(p, from_root, to_root)) == path::components(to_root)
            + path::components(p).skip(path::components(from_root).len() as int),
{
    let n = path::components(from_root).len();
    path::lemma_nonempty_has_component(from_root);
    path::lemma_behind(p, n);
    let rel = path::behind(p, n);
    path::join_appends_components(to_root, rel);
    let moved = path::components(path::joined(to_root, rel));
    assert(moved.take(path::components(to_root).len() as int) =~= path::components(to_root));
}

/// A path that does not lie under the first root stays as it is.
pub proof fn retarget_leaves_other_paths(
    p: Seq<char>,
    from_root: Seq<char>,
    to_root: Seq<char>,
)
    requires
        !path::under(p, from_root),
    ensures
        retargeted_path(p, from_root, to_root) == p,
{
}

/// Moving a path to another root and back again gives the path it was.
pub proof fn retarget_and_back(p: Seq<char>, from_root: Seq<char>, to_root: Seq<char>)
    requires
        from_root.len() > 0,
        to_root.len() > 0,
        path::under(p, from_root),
    ensures
        path::components(
            retargeted_path(retargeted_path(p, from_root, to_root), to_root, from_root),
        ) == path::components(p),
{
    let moved = retargeted_path(p, from_root, to_root);
    retarget_keeps_relative_place(p, from_root, to_root);
    retarget_keeps_relative_place(moved, to_root, from_root);
    let n = path::components(from_root).len() as int;
    let m = path::components(to_root).len() as int;
    assert(path::components(moved).skip(m) =~= path::components(p).skip(n));
    assert(path::components(p).take(n) + path::components(p).skip(n) =~= path::components(p));
}

/// Whether a path comes back from a move to another root: it lies under the first,
/// or under neither.
pub open spec fn comes_back(p: Seq<char>, from_root: Seq<char>, to_root: Seq<char>) -> bool {
    path::under(p, from_root) || !path::under(p, to_root)
}

/// Whether all paths of a file operation come back.
pub open spec fn op_comes_back(
    op: FileOperationView,
    from_root: Seq<char>,
    to_root: Seq<char>,
) -> bool {
    match op {
        FileOperationView::Create { path } => comes_back(path, from_root, to_root),
        FileOperationView::Rename { from, to } => comes_back(from, from_root, to_root)
            && comes_back(to, from_root, to_root),
        FileOperationView::Delete { path } => comes_back(path, from_root, to_root),
    }
}

/// Whether two paths name the same place.
pub open spec fn same_place(p: Seq<char>, q: Seq<char>) -> bool {
    path::components(p) == path::components(q)
}

/// Whether two file operations do the same at the same places.
pub open spec fn same_op(a: FileOperationView, b: FileOperationView) -> bool {
    match (a, b) {
        (FileOperationView::Create { path: p }, FileOperationView::Create { path: q }) => {
            same_place(p, q)
        },
        (
            FileOperationView::Rename { from: p, to: r },
            FileOperationView::Rename { from: q, to: t },
        ) => same_place(p, q) && same_place(r, t),
        (FileOperationView::Delete { path: p }, FileOperationView::Delete { path: q }) => {
            same_place(p, q)
        },
        _ => false,
    }
}

proof fn lemma_path_comes_back(p: Seq<char>, from_root: Seq<char>, to_root: Seq<char>)
    requires
        from_root.len() > 0,
        to_root.len() > 0,
        comes_back(p, from_root, to_root),
    ensures
        same_place(
            retargeted_path(retargeted_path(p, from_root, to_root), to_root, from_root),
            p,
        ),
{
    if path::under(p, from_root) {
        retarget_and_back(p, from_root, to_root);
    } else {
        retarget_leaves_other_paths(p, from_root, to_root);
        retarget_leaves_other_paths(p, to_root, from_root);
    }
}

/// Moving a whole edit to another root and back again gives the edit it was: the
/// same edits to the same files, and the same file operations. A path that lay
/// under the second root alone is left out, for it would be moved to the first.
pub proof fn whole_edit_there_and_back(
    edit: WorkspaceEditView,
    from_root: Seq<char>,
    to_root: Seq<char>,
)
    requires
        from_root.len() > 0,
        to_root.len() > 0,
        forall|i: int|
            0 <= i < edit.files.len() ==> comes_back(
                (#[trigger] edit.files[i]).path,
                from_root,
                to_root,
            ),
        forall|i: int|
            0 <= i < edit.file_ops.len() ==> op_comes_back(
                #[trigger] edit.file_ops[i],
                from_root,
                to_root,
            ),
    ensures
        ({
            let back = retargeted(retargeted(edit, from_root, to_root), to_root, from_root);
            &&& back.encoding == edit.encoding
            &&& back.files.len() == edit.files.len()
            &&& back.file_ops.len() == edit.file_ops.len()
            &&& forall|i: int|
                0 <= i < edit.files.len() ==> same_place(
                    (#[trigger] back.files[i]).path,
                    edit.files[i].path,
                ) && back.files[i].edits == edit.files[i].edits
            &&& forall|i: int|
                0 <= i < edit.file_ops.len() ==> same_op(
                    #[trigger] back.file_ops[i],
                    edit.file_ops[i],
                )
        }),
{
    let there = retargeted(edit, from_root, to_root);
    let back = retargeted(there, to_root, from_root);
    assert forall|i: int| 0 <= i < edit.files.len() implies same_place(
        (#[trigger] back.files[i]).path,
        edit.files[i].path,
    ) && back.files[i].edits == edit.files[i].edits by {
        assert(there.files[i].path == retargeted_path(edit.files[i].path, from_root, to_root));
        lemma_path_comes_back(edit.files[i].path, from_root, to_root);
    }
    assert forall|i: int| 0 <= i < edit.file_ops.len() implies same_op(
        #[trigger] back.file_ops[i],
        edit.file_ops[i],
    ) by {
        assert(there.file_ops[i] == retargeted_op(edit.file_ops[i], from_root, to_root));
        match edit.file_ops[i] {
            FileOperationView::Create { path } => {
                lemma_path_comes_back(path, from_root, to_root);
            },
            FileOperationView::Rename { from, to } => {
                lemma_path_comes_back(from, from_root, to_root);
                lemma_path_comes_back(to, from_root, to_root);
            },
            FileOperationView::Delete { path } => {
                lemma_path_comes_back(path, from_root, to_root);
            },
        }
    }
}

/// Whether a path has been moved from one root to another: one under the first root
/// stands at the same place under the second, and any other is as it was.
pub open spec fn is_moved(
    before: Seq<char>,
    after: Seq<char>,
    from_root: Seq<char>,
    to_root: Seq<char>,
) -> bool {
    if path::under(before, from_root) {
        path::components(after) == path::components(to_root) + path::components(before).skip(
            path::components(from_root).len() as int,
        )
    } else {
        after == before
    }
}

/// Moving an edit to another root moves each of its paths, that of every file and
/// every path of every file operation, and changes nothing else of it.
pub proof fn retargeting_moves_every_path(
    edit: WorkspaceEditView,
    from_root: Seq<char>,
    to_root: Seq<char>,
)
    requires
        from_root.len() > 0,
        to_root.len() > 0,
    ensures
        ({
            let moved = retargeted(edit, from_root, to_root);
            &&& moved.encoding == edit.encoding
            &&& moved.files.len() == edit.files.len()
            &&& moved.file_ops.len() == edit.file_ops.len()
            &&& forall|i: int|
                0 <= i < edit.files.len() ==> (#[trigger] moved.files[i]).edits
                    == edit.files[i].edits && is_moved(
                    edit.files[i].path,
                    moved.files[i].path,
                    from_root,
                    to_root,
                )
            &&& forall|i: int|
                0 <= i < edit.file_ops.len() ==> match (
                    edit.file_ops[i],
                    #[trigger] moved.file_ops[i],
                ) {
                    (
                        FileOperationView::Create { path: p },
                        FileOperationView::Create { path: q },
                    ) => is_moved(p, q, from_root, to_root),
                    (
                        FileOperationView::Rename { from: p, to: r },
                        FileOperationView::Rename { from: q, to: t },
                    ) => is_moved(p, q, from_root, to_root) && is_moved(r, t, from_root, to_root),
                    (
                        FileOperationView::Delete { path: p },
                        FileOperationView::Delete { path: q },
                    ) => is_moved(p, q, from_root, to_root),
                    _ => false,
                }
        }),
{
    assert forall|p: Seq<char>| is_moved(
        p,
        #[trigger] retargeted_path(p, from_root, to_root),
        from_root,
        to_root,
    ) by {
        if path::under(p, from_root) {
            retarget_keeps_relative_place(p, from_root, to_root);
        } else {
            retarget_leaves_other_paths(p, from_root, to_root);
        }
    }
    let moved = retargeted(edit, from_root, to_root);
    assert forall|i: int| 0 <= i < edit.files.len() implies (#[trigger] moved.files[i]).path
        == retargeted_path(edit.files[i].path, from_root, to_root) by {}
    assert forall|i: int| 0 <= i < edit.file_ops.len() implies #[trigger] moved.file_ops[i]
        == retargeted_op(edit.file_ops[i], from_root, to_root) by {}
}

} // verus!

//! Previewing an edit as a diff, and planning how to apply it.
//!
//! The texts of the files come from the caller, one for each file of the edit;
//! what is to be done to the tree goes back as a list of steps. No step is
//! planned unless every file could be rewritten.
use vstd::prelude::*;

use crate::edit::rewrite;
use crate::edit::rewrite::{rewrite_text, RewriteError};
use crate::edit::{
    FileEdit, FileEditView, FileOperation, FileOperationView, PositionEncoding, WorkspaceEdit,
    WorkspaceEditView,
};
use crate::error::{Error, ErrorView};
use crate::path;
use crate::path::PathBuf;
use crate::text;
use crate::text::{cat2, cat4, same_text};

verus! {

// ---------------------------------------------------------------------------
// Paths of an edit
// ---------------------------------------------------------------------------

/// A path of an edit seen from the project root.
pub open spec fn resolved(p: Seq<char>, root: Seq<char>) -> Seq<char> {
    if path::absolute(p) {
        p
    } else {
        path::joined(root, p)
    }
}

/// A path of an edit relative to the project root, where it lies under it.
pub open spec fn relativized(p: Seq<char>, root: Seq<char>) -> Seq<char> {
    match path::stripped(resolved(p, root), root) {
        Some(rel) => rel,
        None => resolved(p, root),
    }
}

/// A path of an edit seen from the project root.
pub fn resolve_path(p: &PathBuf, root: &PathBuf) -> (r: PathBuf)
    ensures
        r@ == resolved(p@, root@),
{
    if p.is_absolute() {
        p.clone()
    } else {
        root.join(p)
    }
}

/// A path of an edit relative to the project root, where it lies under it.
pub fn relativize(p: &PathBuf, root: &PathBuf) -> (r: PathBuf)
    ensures
        r@ == relativized(p@, root@),
{
    let abs = resolve_path(p, root);
    match abs.strip_prefix(root) {
        Some(rel) => rel,
        None => abs,
    }
}

// ---------------------------------------------------------------------------
// Diffs
// ---------------------------------------------------------------------------

/// The diff of one file.
#[derive(Debug, Clone, PartialEq, Eq)]
pub struct FileDiff {
    /// The file, relative to the project root where possible.
    pub path: PathBuf,
    /// The unified diff; empty where the file does not change.
    pub diff: String,
}

/// What a [`FileDiff`] says.
pub struct FileDiffView {
    pub path: Seq<char>,
    pub diff: Seq<char>,
}

impl View for FileDiff {
    type V = FileDiffView;

    open spec fn view(&self) -> FileDiffView {
        FileDiffView { path: self.path@, diff: self.diff@ }
    }
}

/// The two lines that a unified diff starts with.
pub open spec fn diff_header(from_label: Seq<char>, to_label: Seq<char>) -> Seq<char> {
    "--- "@ + from_label + "\n+++ "@ + to_label + "\n"@
}

/// What `similar` prints for the line diff of two texts.
pub uninterp spec fn line_diff(
    original: Seq<char>,
    updated: Seq<char>,
    radius: nat,
    from_label: Seq<char>,
    to_label: Seq<char>,
) -> Seq<char>;

/// `similar::TextDiff::from_lines` followed by `unified_diff`, with the context
/// radius and the two labels given: the unified diff of two texts, line by line.
/// Texts that differ have a hunk, and the labels stand before the first one.
#[verifier::external_body]
fn print_line_diff(
    original: &str,
    updated: &str,
    radius: usize,
    from_label: &str,
    to_label: &str,
) -> (r: String)
    requires
        radius <= 0x7fff_ffff,
    ensures
        r@ == line_diff(original@, updated@, radius as nat, from_label@, to_label@),
        original@ != updated@ ==> text::begins_with(r@, diff_header(from_label@, to_label@)),
{
    similar::TextDiff::from_lines(original, updated)
        .unified_diff()
        .context_radius(radius)
        .header(from_label, to_label)
        .to_string()
}

/// The diff of a file that is shown under `path`: none where nothing changes.
pub open spec fn diff_of(original: Seq<char>, updated: Seq<char>, path: Seq<char>) -> Seq<char> {
    if original == updated {
        seq![]
    } else {
        line_diff(original, updated, 3, "a/"@ + path, "b/"@ + path)
    }
}

/// The unified diff of two texts, labelled with the file's path.
pub fn unified_diff(original: &str, updated: &str, path: &PathBuf) -> (r: String)
    ensures
        r@ == diff_of(original@, updated@, path@),
        r@.len() == 0 <==> original@ == updated@,
        original@ != updated@ ==> text::begins_with(
            r@,
            diff_header("a/"@ + path@, "b/"@ + path@),
        ),
{
    if same_text(original, updated) {
        return String::new();
    }
    let from_label = cat2("a/", path.as_str());
    let to_label = cat2("b/", path.as_str());
    proof {
        reveal_strlit("--- ");
    }
    print_line_diff(original, updated, 3, from_label.as_str(), to_label.as_str())
}

/// The entry that a file operation has in a preview.
pub open spec fn op_diff(op: FileOperationView, root: Seq<char>) -> FileDiffView {
    match op {
        FileOperationView::Create { path } => FileDiffView {
            path: relativized(path, root),
            diff: "create "@ + relativized(path, root),
        },
        FileOperationView::Rename { from, to } => FileDiffView {
            path: relativized(to, root),
            diff: "rename "@ + relativized(from, root) + " -> "@ + relativized(to, root),
        },
        FileOperationView::Delete { path } => FileDiffView {
            path: relativized(path, root),
            diff: "delete "@ + relativized(path, root),
        },
    }
}

/// The entry that a file operation has in a preview.
pub fn file_op_diff(op: &FileOperation, root: &PathBuf) -> (r: FileDiff)
    ensures
        r@ == op_diff(op@, root@),
{
    match op {
        FileOperation::Create { path } => {
            let rel = relativize(path, root);
            FileDiff { diff: cat2("create ", rel.as_str()), path: rel }
        },
        FileOperation::Rename { from, to } => {
            let rel_to = relativize(to, root);
            let rel_from = relativize(from, root);
            FileDiff {
                diff: cat4("rename ", rel_from.as_str(), " -> ", rel_to.as_str()),
                path: rel_to,
            }
        },
        FileOperation::Delete { path } => {
            let rel = relativize(path, root);
            FileDiff { diff: cat2("delete ", rel.as_str()), path: rel }
        },
    }
}

// ---------------------------------------------------------------------------
// Rewriting files
// ---------------------------------------------------------------------------

/// What reading a file gave: its text, or the text of the failure.
pub open spec fn source_view(source: Result<String, String>) -> Result<Seq<char>, Seq<char>> {
    match source {
        Ok(s) => Ok(s@),
        Err(e) => Err(e@),
    }
}

/// What reading a list of files gave.
pub open spec fn source_views(sources: Seq<Result<String, String>>) -> Seq<
    Result<Seq<char>, Seq<char>>,
> {
    sources.map_values(|s: Result<String, String>| source_view(s))
}

/// The new text of one file.
pub open spec fn rewrite_of(
    file: FileEditView,
    encoding: PositionEncoding,
    root: Seq<char>,
    source: Result<Seq<char>, Seq<char>>,
) -> Result<Seq<char>, ErrorView> {
    match source {
        Err(message) => Err(ErrorView::Io(message)),
        Ok(s) => match rewrite::rewritten(s, file.edits, encoding) {
            Ok(updated) => Ok(updated),
            Err(RewriteError::OutOfRange(pos)) => Err(
                ErrorView::PositionOutOfRange {
                    path: resolved(file.path, root),
                    line: pos.line,
                    character: pos.character,
                },
            ),
            Err(RewriteError::Overlapping) => Err(
                ErrorView::OverlappingEdits(resolved(file.path, root)),
            ),
            Err(RewriteError::Inverted) => Err(
                ErrorView::InvertedEdit(resolved(file.path, root)),
            ),
        },
    }
}

/// The new texts of all files, or the failure of the first file that has one.
pub open spec fn rewrites_of(
    files: Seq<FileEditView>,
    encoding: PositionEncoding,
    root: Seq<char>,
    sources: Seq<Result<Seq<char>, Seq<char>>>,
) -> Result<Seq<Seq<char>>, ErrorView>
    decreases files.len(),
{
    if files.len() == 0 {
        Ok(seq![])
    } else {
        match rewrites_of(files.drop_last(), encoding, root, sources) {
            Err(e) => Err(e),
            Ok(done) => match rewrite_of(
                files.last(),
                encoding,
                root,
                sources[files.len() - 1],
            ) {
                Err(e) => Err(e),
                Ok(updated) => Ok(done.push(updated)),
            },
        }
    }
}

proof fn lemma_first_failure_stays(
    files: Seq<FileEditView>,
    encoding: PositionEncoding,
    root: Seq<char>,
    sources: Seq<Result<Seq<char>, Seq<char>>>,
    n: int,
)
    requires
        0 <= n <= files.len(),
    ensures
        rewrites_of(files.take(n), encoding, root, sources) is Err ==> rewrites_of(
            files,
            encoding,
            root,
            sources,
        ) == rewrites_of(files.take(n), encoding, root, sources),
    decreases files.len(),
{
    if n == files.len() {
        assert(files.take(n) =~= files);
    } else {
        assert(files.drop_last().take(n) =~= files.take(n));
        lemma_first_failure_stays(files.drop_last(), encoding, root, sources, n);
    }
}

proof fn lemma_rewrites_len(
    files: Seq<FileEditView>,
    encoding: PositionEncoding,
    root: Seq<char>,
    sources: Seq<Result<Seq<char>, Seq<char>>>,
)
    ensures
        rewrites_of(files, encoding, root, sources) matches Ok(done) ==> done.len()
            == files.len() && (forall|i: int|
            0 <= i < files.len() ==> rewrite_of(#[trigger] files[i], encoding, root, sources[i])
                == Ok::<Seq<char>, ErrorView>(done[i])),
    decreases files.len(),
{
    if files.len() > 0 {
        lemma_rewrites_len(files.drop_last(), encoding, root, sources);
        if rewrites_of(files, encoding, root, sources) is Ok {
            let done = rewrites_of(files, encoding, root, sources)->Ok_0;
            let before = rewrites_of(files.drop_last(), encoding, root, sources)->Ok_0;
            assert forall|i: int| 0 <= i < files.len() implies rewrite_of(
                #[trigger] files[i],
                encoding,
                root,
                sources[i],
            ) == Ok::<Seq<char>, ErrorView>(done[i]) by {
                if i < files.len() - 1 {
                    assert(files.drop_last()[i] == files[i]);
                    assert(done[i] == before[i]);
                }
            }
        }
    }
}

// ---------------------------------------------------------------------------
// Plans
// ---------------------------------------------------------------------------

/// One change to the tree.
#[derive(Debug, Clone, PartialEq, Eq)]
pub enum FileStep {
    /// Write a file.
    Write {
        /// File to write.
        path: PathBuf,
        /// Its new text.
        text: String,
    },
    /// Create an empty file and the directories above it, unless it exists.
    CreateIfMissing {
        /// File to create.
        path: PathBuf,
        /// Directory it stands in.
        parent: Option<PathBuf>,
    },
    /// Rename a file once the directories above its new place exist.
    Rename {
        /// Existing file.
        from: PathBuf,
        /// New place.
        to: PathBuf,
        /// Directory of the new place.
        parent: Option<PathBuf>,
    },
    /// Delete a file if it exists.
    DeleteIfPresent {
        /// File to delete.
        path: PathBuf,
    },
}

/// What a [`FileStep`] says.
pub enum FileStepView {
    Write { path: Seq<char>, text: Seq<char> },
    CreateIfMissing { path: Seq<char>, parent: Option<Seq<char>> },
    Rename { from: Seq<char>, to: Seq<char>, parent: Option<Seq<char>> },
    DeleteIfPresent { path: Seq<char> },
}

impl View for FileStep {
    type V = FileStepView;

    open spec fn view(&self) -> FileStepView {
        match self {
            FileStep::Write { path, text } => FileStepView::Write { path: path@, text: text@ },
            FileStep::CreateIfMissing { path, parent } => FileStepView::CreateIfMissing {
                path: path@,
                parent: path::optional(*parent),
            },
            FileStep::Rename { from, to, parent } => FileStepView::Rename {
                from: from@,
                to: to@,
                parent: path::optional(*parent),
            },
            FileStep::DeleteIfPresent { path } => FileStepView::DeleteIfPresent { path: path@ },
        }
    }
}

/// What an applied edit changed.
#[derive(Debug, Clone, PartialEq, Eq)]
pub struct AppliedEdit {
    /// The changed files, relative to the project root where possible.
    pub changed_files: Vec<PathBuf>,
}

/// The steps that apply an edit, and what they change.
#[derive(Debug, Clone, PartialEq, Eq)]
pub struct Plan {
    /// The steps, in order.
    pub steps: Vec<FileStep>,
    /// What there is to report once all steps are done.
    pub applied: AppliedEdit,
}

/// What a [`Plan`] says.
pub struct PlanView {
    pub steps: Seq<FileStepView>,
    pub changed_files: Seq<Seq<char>>,
}

impl View for Plan {
    type V = PlanView;

    open spec fn view(&self) -> PlanView {
        PlanView {
            steps: self.steps@.map_values(|s: FileStep| s@),
            changed_files: self.applied.changed_files@.map_values(|p: PathBuf| p@),
        }
    }
}

/// The steps that write the files whose text changes, and their names.
pub open spec fn write_plan(
    files: Seq<FileEditView>,
    root: Seq<char>,
    sources: Seq<Result<Seq<char>, Seq<char>>>,
    updated: Seq<Seq<char>>,
) -> PlanView
    decreases files.len(),
{
    if files.len() == 0 {
        PlanView { steps: seq![], changed_files: seq![] }
    } else {
        let i = files.len() - 1;
        let before = write_plan(files.drop_last(), root, sources, updated);
        if sources[i] == Ok::<Seq<char>, Seq<char>>(updated[i]) {
            before
        } else {
            PlanView {
                steps: before.steps.push(
                    FileStepView::Write {
                        path: resolved(files.last().path, root),
                        text: updated[i],
                    },
                ),
                changed_files: before.changed_files.push(relativized(files.last().path, root)),
            }
        }
    }
}

/// The step that a file operation asks for.
pub open spec fn op_step(op: FileOperationView, root: Seq<char>) -> FileStepView {
    match op {
        FileOperationView::Create { path } => FileStepView::CreateIfMissing {
            path: resolved(path, root),
            parent: path::parent_of(resolved(path, root)),
        },
        FileOperationView::Rename { from, to } => FileStepView::Rename {
            from: resolved(from, root),
            to: resolved(to, root),
            parent: path::parent_of(resolved(to, root)),
        },
        FileOperationView::Delete { path } => FileStepView::DeleteIfPresent {
            path: resolved(path, root),
        },
    }
}

/// The file that a file operation is reported under.
pub open spec fn op_changed(op: FileOperationView, root: Seq<char>) -> Seq<char> {
    match op {
        FileOperationView::Create { path } => relativized(path, root),
        FileOperationView::Rename { from, to } => relativized(to, root),
        FileOperationView::Delete { path } => relativized(path, root),
    }
}

/// The plan of an edit: the changed texts first, then the file operations.
pub open spec fn plan_of(
    edit: WorkspaceEditView,
    root: Seq<char>,
    sources: Seq<Result<Seq<char>, Seq<char>>>,
    updated: Seq<Seq<char>>,
) -> PlanView {
    let writes = write_plan(edit.files, root, sources, updated);
    PlanView {
        steps: writes.steps + edit.file_ops.map_values(|o: FileOperationView| op_step(o, root)),
        changed_files: writes.changed_files + edit.file_ops.map_values(
            |o: FileOperationView| op_changed(o, root),
        ),
    }
}

/// The diffs of an edit: one for each file, then one for each file operation.
pub open spec fn diffs_of(
    edit: WorkspaceEditView,
    root: Seq<char>,
    sources: Seq<Result<Seq<char>, Seq<char>>>,
    updated: Seq<Seq<char>>,
) -> Seq<FileDiffView> {
    edit.files.map(
        |i: int, f: FileEditView|
            FileDiffView {
                path: relativized(f.path, root),
                diff: diff_of(sources[i]->Ok_0, updated[i], relativized(f.path, root)),
            },
    ) + edit.file_ops.map_values(|o: FileOperationView| op_diff(o, root))
}

/// Whether the diff of each file is empty exactly where its text does not change.
pub open spec fn empty_where_unchanged(
    diffs: Seq<FileDiff>,
    sources: Seq<Result<Seq<char>, Seq<char>>>,
    updated: Seq<Seq<char>>,
) -> bool {
    forall|i: int|
        0 <= i < sources.len() ==> ((#[trigger] diffs[i]).diff@.len() == 0 <==> sources[i] == Ok::<
            Seq<char>,
            Seq<char>,
        >(updated[i]))
}

/// Previews and plans edits against a project root.
#[derive(Debug, Clone, Copy, PartialEq, Eq, Structural)]
pub struct EditApplier;

impl EditApplier {
    /// The new text of one file.
    pub fn rewrite_file(
        file: &FileEdit,
        encoding: PositionEncoding,
        root: &PathBuf,
        source: &Result<String, String>,
    ) -> (r: Result<String, Error>)
        ensures
            match r {
                Ok(updated) => rewrite_of(file@, encoding, root@, source_view(*source)) == Ok::<
                    Seq<char>,
                    ErrorView,
                >(updated@),
                Err(e) => rewrite_of(file@, encoding, root@, source_view(*source)) == Err::<
                    Seq<char>,
                    ErrorView,
                >(e@),
            },
    {
        match source {
            Err(message) => Err(Error::Io(message.clone())),
            Ok(s) => match rewrite_text(s.as_str(), &file.edits, encoding) {
                Ok(updated) => Ok(updated),
                Err(RewriteError::OutOfRange(pos)) => Err(
                    Error::PositionOutOfRange {
                        path: resolve_path(&file.path, root),
                        line: pos.line,
                        character: pos.character,
                    },
                ),
                Err(RewriteError::Overlapping) => Err(
                    Error::OverlappingEdits(resolve_path(&file.path, root)),
                ),
                Err(RewriteError::Inverted) => Err(
                    Error::InvertedEdit(resolve_path(&file.path, root)),
                ),
            },
        }
    }

    /// The new texts of all files of an edit.
    pub fn rewrite_files(
        edit: &WorkspaceEdit,
        root: &PathBuf,
        sources: &Vec<Result<String, String>>,
    ) -> (r: Result<Vec<String>, Error>)
        requires
            sources@.len() == edit.files@.len(),
        ensures
            match r {
                Ok(updated) => rewrites_of(
                    edit@.files,
                    edit.encoding,
                    root@,
                    source_views(sources@),
                ) == Ok::<Seq<Seq<char>>, ErrorView>(text::texts(updated@)),
                Err(e) => rewrites_of(
                    edit@.files,
                    edit.encoding,
                    root@,
                    source_views(sources@),
                ) == Err::<Seq<Seq<char>>, ErrorView>(e@),
            },
    {
        let ghost files = edit@.files;
        let ghost given = source_views(sources@);
        let mut out: Vec<String> = Vec::new();
        let mut i: usize = 0;
        assert(files.take(0) =~= seq![]);
        assert(text::texts(out@) =~= seq![]);
        while i < edit.files.len()
            invariant
                i <= edit.files@.len(),
                sources@.len() == edit.files@.len(),
                files == edit@.files,
                given == source_views(sources@),
                rewrites_of(files.take(i as int), edit.encoding, root@, given) == Ok::<
                    Seq<Seq<char>>,
                    ErrorView,
                >(text::texts(out@)),
            decreases edit.files@.len() - i,
        {
            proof {
                let now = files.take(i + 1);
                assert(now.drop_last() =~= files.take(i as int));
                assert(now.last() == edit.files@[i as int]@);
                assert(given[i as int] == source_view(sources@[i as int]));
                lemma_first_failure_stays(files, edit.encoding, root@, given, i + 1);
            }
            match EditApplier::rewrite_file(&edit.files[i], edit.encoding, root, &sources[i]) {
                Ok(updated) => {
                    let ghost before = text::texts(out@);
                    out.push(updated);
                    assert(text::texts(out@) =~= before.push(updated@));
                },
                Err(e) => {
                    return Err(e);
                },
            }
            i += 1;
        }
        assert(files.take(i as int) =~= files);
        Ok(out)
    }

    /// The diff that the edit would make of each file; it is empty exactly where the
    /// file's text does not change.
    pub fn preview(
        edit: &WorkspaceEdit,
        root: &PathBuf,
        sources: &Vec<Result<String, String>>,
    ) -> (r: Result<Vec<FileDiff>, Error>)
        requires
            sources@.len() == edit.files@.len(),
        ensures
            match (r, rewrites_of(edit@.files, edit.encoding, root@, source_views(sources@))) {
                (Ok(diffs), Ok(updated)) => diffs@.map_values(|d: FileDiff| d@) == diffs_of(
                    edit@,
                    root@,
                    source_views(sources@),
                    updated,
                ) && empty_where_unchanged(diffs@, source_views(sources@), updated),
                (Err(e), Err(want)) => e@ == want,
                _ => false,
            },
    {
        let updated = match EditApplier::rewrite_files(edit, root, sources) {
            Ok(updated) => updated,
            Err(e) => {
                return Err(e);
            },
        };
        let ghost given = source_views(sources@);
        let ghost new = text::texts(updated@);
        proof {
            lemma_rewrites_len(edit@.files, edit.encoding, root@, given);
        }
        let ghost want = diffs_of(edit@, root@, given, new);
        let mut diffs: Vec<FileDiff> = Vec::new();
        let mut i: usize = 0;
        assert(diffs@.map_values(|d: FileDiff| d@) =~= want.take(0));
        while i < edit.files.len()
            invariant
                diffs@.len() == i,
                empty_where_unchanged(diffs@, given.take(i as int), new),
                i <= edit.files@.len(),
                sources@.len() == edit.files@.len(),
                updated@.len() == edit.files@.len(),
                given == source_views(sources@),
                new == text::texts(updated@),
                want == diffs_of(edit@, root@, given, new),
                forall|j: int|
                    0 <= j < edit@.files.len() ==> rewrite_of(
                        #[trigger] edit@.files[j],
                        edit.encoding,
                        root@,
                        given[j],
                    ) == Ok::<Seq<char>, ErrorView>(new[j]),
                diffs@.map_values(|d: FileDiff| d@) == want.take(i as int),
            decreases edit.files@.len() - i,
        {
            assert(edit@.files[i as int] == edit.files@[i as int]@);
            assert(given[i as int] == source_view(sources@[i as int]));
            let rel = relativize(&edit.files[i].path, root);
            if let Ok(original) = &sources[i] {
                let diff = unified_diff(original.as_str(), updated[i].as_str(), &rel);
                let ghost before = diffs@.map_values(|d: FileDiff| d@);
                let ghost shorter = diffs@;
                diffs.push(FileDiff { path: rel, diff });
                proof {
                    assert forall|k: int| 0 <= k < i + 1 implies (
                    (#[trigger] diffs@[k]).diff@.len() == 0 <==> given.take(i + 1)[k] == Ok::<
                        Seq<char>,
                        Seq<char>,
                    >(new[k])) by {
                        if k < i {
                            assert(diffs@[k] == shorter[k]);
                            assert(given.take(i as int)[k] == given.take(i + 1)[k]);
                        }
                    }
                    assert(new[i as int] == updated@[i as int]@);
                    assert(want[i as int] == diffs@.last()@);
                    assert(diffs@.map_values(|d: FileDiff| d@) =~= before.push(want[i as int]));
                    assert(want.take(i + 1) =~= want.take(i as int).push(want[i as int]));
                }
            }
            i += 1;
        }
        assert(given.take(i as int) =~= given);
        let mut k: usize = 0;
        while k < edit.file_ops.len()
            invariant
                k <= edit.file_ops@.len(),
                given.len() <= diffs@.len(),
                empty_where_unchanged(diffs@, given, new),
                want == diffs_of(edit@, root@, given, new),
                diffs@.map_values(|d: FileDiff| d@) == want.take(edit.files@.len() + k),
            decreases edit.file_ops@.len() - k,
        {
            let ghost before = diffs@.map_values(|d: FileDiff| d@);
            let ghost shorter = diffs@;
            diffs.push(file_op_diff(&edit.file_ops[k], root));
            proof {
                assert forall|j: int| 0 <= j < given.len() implies (
                (#[trigger] diffs@[j]).diff@.len() == 0 <==> given[j] == Ok::<
                    Seq<char>,
                    Seq<char>,
                >(new[j])) by {
                    assert(diffs@[j] == shorter[j]);
                }
                let at = edit.files@.len() + k;
                assert(edit@.file_ops[k as int] == edit.file_ops@[k as int]@);
                assert(want[at] == diffs@.last()@);
                assert(diffs@.map_values(|d: FileDiff| d@) =~= before.push(want[at]));
                assert(want.take(at + 1) =~= want.take(at).push(want[at]));
            }
            k += 1;
        }
        assert(want.take(edit.files@.len() + k) =~= want);
        Ok(diffs)
    }

    /// The steps that apply the edit. Files are written only where their text
    /// changes, and file operations follow the text edits.
    pub fn apply(
        edit: &WorkspaceEdit,
        root: &PathBuf,
        sources: &Vec<Result<String, String>>,
    ) -> (r: Result<Plan, Error>)
        requires
            sources@.len() == edit.files@.len(),
        ensures
            match (r, rewrites_of(edit@.files, edit.encoding, root@, source_views(sources@))) {
                (Ok(plan), Ok(updated)) => plan@ == plan_of(
                    edit@,
                    root@,
                    source_views(sources@),
                    updated,
                ),
                (Err(e), Err(want)) => e@ == want,
                _ => false,
            },
    {
        let mut updated = match EditApplier::rewrite_files(edit, root, sources) {
            Ok(updated) => updated,
            Err(e) => {
                return Err(e);
            },
        };
        let ghost given = source_views(sources@);
        let ghost new = text::texts(updated@);
        proof {
            lemma_rewrites_len(edit@.files, edit.encoding, root@, given);
        }
        let mut steps: Vec<FileStep> = Vec::new();
        let mut changed: Vec<PathBuf> = Vec::new();
        let ghost files = edit@.files;
        let mut i: usize = 0;
        assert(files.take(0) =~= seq![]);
        assert(steps@.map_values(|s: FileStep| s@) =~= seq![]);
        assert(changed@.map_values(|p: PathBuf| p@) =~= seq![]);
        while i < edit.files.len()
            invariant
                i <= edit.files@.len(),
                sources@.len() == edit.files@.len(),
                updated@.len() == edit.files@.len(),
                files == edit@.files,
                given == source_views(sources@),
                new == text::texts(updated@),
                steps@.map_values(|s: FileStep| s@) == write_plan(
                    files.take(i as int),
                    root@,
                    given,
                    new,
                ).steps,
                changed@.map_values(|p: PathBuf| p@) == write_plan(
                    files.take(i as int),
                    root@,
                    given,
                    new,
                ).changed_files,
            decreases edit.files@.len() - i,
        {
            proof {
                let now = files.take(i + 1);
                assert(now.drop_last() =~= files.take(i as int));
                assert(now.last() == edit.files@[i as int]@);
                assert(given[i as int] == source_view(sources@[i as int]));
                assert(new[i as int] == updated@[i as int]@);
            }
            let same = match &sources[i] {
                Ok(original) => same_text(original.as_str(), updated[i].as_str()),
                Err(_) => false,
            };
            if !same {
                let ghost before = steps@.map_values(|s: FileStep| s@);
                let ghost named = changed@.map_values(|p: PathBuf| p@);
                let path = resolve_path(&edit.files[i].path, root);
                steps.push(FileStep::Write { path, text: updated[i].clone() });
                changed.push(relativize(&edit.files[i].path, root));
                proof {
                    assert(steps@.map_values(|s: FileStep| s@) =~= before.push(steps@.last()@));
                    assert(changed@.map_values(|p: PathBuf| p@) =~= named.push(changed@.last()@));
                }
            }
            i += 1;
        }
        assert(files.take(i as int) =~= files);
        let ghost writes = write_plan(files, root@, given, new);
        let ghost op_steps = edit@.file_ops.map_values(|o: FileOperationView| op_step(o, root@));
        let ghost op_names = edit@.file_ops.map_values(
            |o: FileOperationView| op_changed(o, root@),
        );
        let mut k: usize = 0;
        assert(op_steps.take(0) =~= seq![]);
        assert(op_names.take(0) =~= seq![]);
        while k < edit.file_ops.len()
            invariant
                k <= edit.file_ops@.len(),
                op_steps == edit@.file_ops.map_values(
                    |o: FileOperationView| op_step(o, root@),
                ),
                op_names == edit@.file_ops.map_values(
                    |o: FileOperationView| op_changed(o, root@),
                ),
                steps@.map_values(|s: FileStep| s@) == writes.steps + op_steps.take(k as int),
                changed@.map_values(|p: PathBuf| p@) == writes.changed_files + op_names.take(
                    k as int,
                ),
            decreases edit.file_ops@.len() - k,
        {
            let ghost before = steps@.map_values(|s: FileStep| s@);
            let ghost named = changed@.map_values(|p: PathBuf| p@);
            assert(edit@.file_ops[k as int] == edit.file_ops@[k as int]@);
            match &edit.file_ops[k] {
                FileOperation::Create { path } => {
                    let abs = resolve_path(path, root);
                    let parent = abs.parent();
                    steps.push(FileStep::CreateIfMissing { path: abs, parent });
                    changed.push(relativize(path, root));
                },
                FileOperation::Rename { from, to } => {
                    let from_abs = resolve_path(from, root);
                    let to_abs = resolve_path(to, root);
                    let parent = to_abs.parent();
                    steps.push(FileStep::Rename { from: from_abs, to: to_abs, parent });
                    changed.push(relativize(to, root));
                },
                FileOperation::Delete { path } => {
                    steps.push(FileStep::DeleteIfPresent { path: resolve_path(path, root) });
                    changed.push(relativize(path, root));
                },
            }
            proof {
                assert(steps@.last()@ == op_steps[k as int]);
                assert(changed@.last()@ == op_names[k as int]);
                assert(op_steps.take(k + 1) =~= op_steps.take(k as int).push(op_steps[k as int]));
                assert(op_names.take(k + 1) =~= op_names.take(k as int).push(op_names[k as int]));
                assert(steps@.map_values(|s: FileStep| s@) =~= before.push(op_steps[k as int]));
                assert(changed@.map_values(|p: PathBuf| p@) =~= named.push(op_names[k as int]));
                assert(before.push(op_steps[k as int]) =~= writes.steps + op_steps.take(k + 1));
                assert(named.push(op_names[k as int]) =~= writes.changed_files + op_names.take(
                    k + 1,
                ));
            }
            k += 1;
        }
        assert(op_steps.take(k as int) =~= op_steps);
        assert(op_names.take(k as int) =~= op_names);
        Ok(Plan { steps, applied: AppliedEdit { changed_files: changed } })
    }
}

// ---------------------------------------------------------------------------
// Laws
// ---------------------------------------------------------------------------

/// An edit without text edits and without file operations asks for no step.
pub proof fn empty_edit_changes_nothing(
    edit: WorkspaceEditView,
    root: Seq<char>,
    sources: Seq<Result<Seq<char>, Seq<char>>>,
)
    requires
        sources.len() == edit.files.len(),
        forall|i: int| 0 <= i < sources.len() ==> (#[trigger] sources[i]) is Ok,
        forall|i: int| 0 <= i < edit.files.len() ==> (#[trigger] edit.files[i]).edits.len() == 0,
        edit.file_ops.len() == 0,
    ensures
        rewrites_of(edit.files, edit.encoding, root, sources) is Ok,
        plan_of(
            edit,
            root,
            sources,
            rewrites_of(edit.files, edit.encoding, root, sources)->Ok_0,
        ).steps.len() == 0,
        plan_of(
            edit,
            root,
            sources,
            rewrites_of(edit.files, edit.encoding, root, sources)->Ok_0,
        ).changed_files.len() == 0,
{
    lemma_empty_files(edit.files, edit.encoding, root, sources);
    let updated = rewrites_of(edit.files, edit.encoding, root, sources)->Ok_0;
    lemma_rewrites_len(edit.files, edit.encoding, root, sources);
    lemma_unchanged_files(edit.files, root, sources, updated);
}

proof fn lemma_empty_files(
    files: Seq<FileEditView>,
    encoding: PositionEncoding,
    root: Seq<char>,
    sources: Seq<Result<Seq<char>, Seq<char>>>,
)
    requires
        files.len() <= sources.len(),
        forall|i: int| 0 <= i < sources.len() ==> (#[trigger] sources[i]) is Ok,
        forall|i: int| 0 <= i < files.len() ==> (#[trigger] files[i]).edits.len() == 0,
    ensures
        rewrites_of(files, encoding, root, sources) is Ok,
        forall|i: int|
            0 <= i < files.len() ==> sources[i] == Ok::<Seq<char>, Seq<char>>(
                #[trigger] rewrites_of(files, encoding, root, sources)->Ok_0[i],
            ),
    decreases files.len(),
{
    if files.len() > 0 {
        let n = files.len() - 1;
        lemma_empty_files(files.drop_last(), encoding, root, sources);
        assert(files[n].edits =~= seq![]);
        rewrite::no_edits_keep_text(sources[n]->Ok_0, encoding);
        lemma_rewrites_len(files, encoding, root, sources);
        lemma_rewrites_len(files.drop_last(), encoding, root, sources);
        let done = rewrites_of(files, encoding, root, sources)->Ok_0;
        assert forall|i: int| 0 <= i < files.len() implies sources[i] == Ok::<
            Seq<char>,
            Seq<char>,
        >(#[trigger] done[i]) by {
            if i < n {
                assert(done[i] == rewrites_of(
                    files.drop_last(),
                    encoding,
                    root,
                    sources,
                )->Ok_0[i]);
            }
        }
    }
}

/// Files that keep their texts are not written.
proof fn lemma_unchanged_files(
    files: Seq<FileEditView>,
    root: Seq<char>,
    sources: Seq<Result<Seq<char>, Seq<char>>>,
    updated: Seq<Seq<char>>,
)
    requires
        forall|i: int|
            0 <= i < files.len() ==> sources[i] == Ok::<Seq<char>, Seq<char>>(
                #[trigger] updated[i],
            ),
    ensures
        write_plan(files, root, sources, updated).steps.len() == 0,
        write_plan(files, root, sources, updated).changed_files.len() == 0,
    decreases files.len(),
{
    if files.len() > 0 {
        assert(sources[files.len() - 1] == Ok::<Seq<char>, Seq<char>>(updated[files.len() - 1]));
        lemma_unchanged_files(files.drop_last(), root, sources, updated);
    }
}

/// Every step is reported, in order.
pub proof fn each_step_is_reported(
    edit: WorkspaceEditView,
    root: Seq<char>,
    sources: Seq<Result<Seq<char>, Seq<char>>>,
    updated: Seq<Seq<char>>,
)
    ensures
        plan_of(edit, root, sources, updated).steps.len() == plan_of(
            edit,
            root,
            sources,
            updated,
        ).changed_files.len(),
{
    lemma_writes_reported(edit.files, root, sources, updated);
}

proof fn lemma_writes_reported(
    files: Seq<FileEditView>,
    root: Seq<char>,
    sources: Seq<Result<Seq<char>, Seq<char>>>,
    updated: Seq<Seq<char>>,
)
    ensures
        write_plan(files, root, sources, updated).steps.len() == write_plan(
            files,
            root,
            sources,
            updated,
        ).changed_files.len(),
    decreases files.len(),
{
    if files.len() > 0 {
        lemma_writes_reported(files.drop_last(), root, sources, updated);
    }
}

/// A file is written exactly when its text changes, and then with its new text.
pub proof fn only_changed_files_are_written(
    files: Seq<FileEditView>,
    root: Seq<char>,
    sources: Seq<Result<Seq<char>, Seq<char>>>,
    updated: Seq<Seq<char>>,
    step: FileStepView,
)
    ensures
        write_plan(files, root, sources, updated).steps.contains(step) <==> exists|i: int|
            0 <= i < files.len() && #[trigger] sources[i] != Ok::<Seq<char>, Seq<char>>(updated[i])
                && step == (FileStepView::Write {
                path: resolved(files[i].path, root),
                text: updated[i],
            }),
    decreases files.len(),
{
    let plan = write_plan(files, root, sources, updated).steps;
    if files.len() > 0 {
        let n = files.len() - 1;
        let front = files.drop_last();
        let before = write_plan(front, root, sources, updated).steps;
        only_changed_files_are_written(front, root, sources, updated, step);
        if plan.contains(step) {
            let k = choose|k: int| 0 <= k < plan.len() && plan[k] == step;
            if k < before.len() {
                assert(before[k] == step);
                let i = choose|i: int|
                    0 <= i < front.len() && #[trigger] sources[i] != Ok::<Seq<char>, Seq<char>>(
                        updated[i],
                    ) && step == (FileStepView::Write {
                        path: resolved(front[i].path, root),
                        text: updated[i],
                    });
                assert(files[i] == front[i]);
            } else {
                assert(sources[n] != Ok::<Seq<char>, Seq<char>>(updated[n]));
            }
        }
        if exists|i: int|
            0 <= i < files.len() && #[trigger] sources[i] != Ok::<Seq<char>, Seq<char>>(updated[i])
                && step == (FileStepView::Write {
                path: resolved(files[i].path, root),
                text: updated[i],
            }) {
            let i = choose|i: int|
                0 <= i < files.len() && #[trigger] sources[i] != Ok::<Seq<char>, Seq<char>>(
                    updated[i],
                ) && step == (FileStepView::Write {
                    path: resolved(files[i].path, root),
                    text: updated[i],
                });
            if i < n {
                assert(front[i] == files[i]);
                assert(before.contains(step));
                let k = choose|k: int| 0 <= k < before.len() && before[k] == step;
                assert(plan[k] == step);
            } else {
                assert(plan.last() == step);
            }
        }
    }
}

/// A preview shows what applying the edit would write: for every file that is
/// written there is a diff, under the name that the file is reported by, from its
/// text to the text that is written.
pub proof fn preview_shows_what_is_written(
    edit: WorkspaceEditView,
    root: Seq<char>,
    sources: Seq<Result<Seq<char>, Seq<char>>>,
    updated: Seq<Seq<char>>,
    k: int,
)
    requires
        0 <= k < plan_of(edit, root, sources, updated).steps.len(),
        plan_of(edit, root, sources, updated).steps[k] is Write,
    ensures
        exists|i: int|
            0 <= i < edit.files.len() && plan_of(edit, root, sources, updated).steps[k] == (
            FileStepView::Write { path: resolved(edit.files[i].path, root), text: updated[i] })
                && (#[trigger] diffs_of(edit, root, sources, updated)[i]) == (FileDiffView {
                path: relativized(edit.files[i].path, root),
                diff: diff_of(
                    sources[i]->Ok_0,
                    updated[i],
                    relativized(edit.files[i].path, root),
                ),
            }),
{
    let writes = write_plan(edit.files, root, sources, updated).steps;
    let steps = plan_of(edit, root, sources, updated).steps;
    let ops = edit.file_ops.map_values(|o: FileOperationView| op_step(o, root));
    if k >= writes.len() {
        assert(steps[k] == ops[k - writes.len()]);
        assert(ops[k - writes.len()] == op_step(edit.file_ops[k - writes.len()], root));
    } else {
        assert(steps[k] == writes[k]);
        assert(writes.contains(steps[k]));
        only_changed_files_are_written(edit.files, root, sources, updated, steps[k]);
        let i = choose|i: int|
            0 <= i < edit.files.len() && #[trigger] sources[i] != Ok::<Seq<char>, Seq<char>>(
                updated[i],
            ) && steps[k] == (FileStepView::Write {
                path: resolved(edit.files[i].path, root),
                text: updated[i],
            });
        assert(diffs_of(edit, root, sources, updated)[i].path == relativized(
            edit.files[i].path,
            root,
        ));
    }
}

/// A relative path is reported as it was given, but for dots and doubled slashes.
pub proof fn relative_path_is_reported_as_given(p: Seq<char>, root: Seq<char>)
    requires
        root.len() > 0,
        !path::absolute(p),
    ensures
        path::components(relativized(p, root)) == path::names(p),
{
    path::strip_undoes_join(root, p);
}

/// The texts of the files of a tree. A file is told by the components of its path.
pub type Tree = Map<Seq<Seq<char>>, Seq<char>>;

/// The tree once a step has been done.
pub open spec fn after_step(tree: Tree, step: FileStepView) -> Tree {
    match step {
        FileStepView::Write { path, text } => tree.insert(path::components(path), text),
        FileStepView::CreateIfMissing { path, .. } => {
            if tree.dom().contains(path::components(path)) {
                tree
            } else {
                tree.insert(path::components(path), seq![])
            }
        },
        FileStepView::Rename { from, to, .. } => {
            if tree.dom().contains(path::components(from)) {
                tree.remove(path::components(from)).insert(
                    path::components(to),
                    tree[path::components(from)],
                )
            } else {
                tree
            }
        },
        FileStepView::DeleteIfPresent { path } => tree.remove(path::components(path)),
    }
}

/// The tree once several steps have been done in turn.
pub open spec fn after_steps(tree: Tree, steps: Seq<FileStepView>) -> Tree
    decreases steps.len(),
{
    if steps.len() == 0 {
        tree
    } else {
        after_step(after_steps(tree, steps.drop_last()), steps.last())
    }
}

/// The file that an edit changes, in a tree.
pub open spec fn place(file: FileEditView, root: Seq<char>) -> Seq<Seq<char>> {
    path::components(resolved(file.path, root))
}

/// Whether the texts that were read are those of the tree.
pub open spec fn read_from(
    tree: Tree,
    files: Seq<FileEditView>,
    root: Seq<char>,
    sources: Seq<Result<Seq<char>, Seq<char>>>,
) -> bool {
    forall|i: int|
        0 <= i < files.len() && (#[trigger] sources[i]) is Ok ==> tree.contains_pair(
            place(files[i], root),
            sources[i]->Ok_0,
        )
}

/// Whether a file stands only once among those of an edit.
pub open spec fn stands_once(files: Seq<FileEditView>, root: Seq<char>, i: int) -> bool {
    forall|j: int|
        0 <= j < files.len() && j != i ==> place(#[trigger] files[j], root) != place(
            files[i],
            root,
        )
}

/// Whether two trees agree on a file.
pub open spec fn agree_on(a: Tree, b: Tree, file: Seq<Seq<char>>) -> bool {
    &&& a.dom().contains(file) == b.dom().contains(file)
    &&& a.dom().contains(file) ==> a[file] == b[file]
}

/// Whether a tree has come from another by the new texts of an edit: a file that
/// stands once in the edit holds its new text, and a file that does not stand in it
/// is as it was.
pub open spec fn rewritten_to(
    before: Tree,
    after: Tree,
    files: Seq<FileEditView>,
    root: Seq<char>,
    updated: Seq<Seq<char>>,
) -> bool {
    &&& forall|i: int|
        0 <= i < files.len() && stands_once(files, root, i) ==> after.contains_pair(
            place(#[trigger] files[i], root),
            updated[i],
        )
    &&& forall|file: Seq<Seq<char>>|
        (forall|i: int| 0 <= i < files.len() ==> place(#[trigger] files[i], root) != file)
            ==> #[trigger] agree_on(after, before, file)
}

/// Applying an edit to the tree that its files were read from gives every file the
/// text that its diff was made of, and leaves all other files alone; the file
/// operations follow.
pub proof fn applying_gives_the_new_texts(
    edit: WorkspaceEditView,
    root: Seq<char>,
    sources: Seq<Result<Seq<char>, Seq<char>>>,
    updated: Seq<Seq<char>>,
    tree: Tree,
)
    requires
        read_from(tree, edit.files, root, sources),
    ensures
        ({
            let written = after_steps(
                tree,
                write_plan(edit.files, root, sources, updated).steps,
            );
            &&& rewritten_to(tree, written, edit.files, root, updated)
            &&& after_steps(tree, plan_of(edit, root, sources, updated).steps) == after_steps(
                written,
                edit.file_ops.map_values(|o: FileOperationView| op_step(o, root)),
            )
        }),
{
    lemma_writes_rewrite(edit.files, root, sources, updated, tree);
    lemma_steps_in_turn(
        tree,
        write_plan(edit.files, root, sources, updated).steps,
        edit.file_ops.map_values(|o: FileOperationView| op_step(o, root)),
    );
}

proof fn lemma_steps_in_turn(tree: Tree, a: Seq<FileStepView>, b: Seq<FileStepView>)
    ensures
        after_steps(tree, a + b) == after_steps(after_steps(tree, a), b),
    decreases b.len(),
{
    if b.len() == 0 {
        assert(a + b =~= a);
    } else {
        assert((a + b).drop_last() =~= a + b.drop_last());
        assert((a + b).last() == b.last());
        lemma_steps_in_turn(tree, a, b.drop_last());
    }
}

proof fn lemma_writes_rewrite(
    files: Seq<FileEditView>,
    root: Seq<char>,
    sources: Seq<Result<Seq<char>, Seq<char>>>,
    updated: Seq<Seq<char>>,
    tree: Tree,
)
    requires
        read_from(tree, files, root, sources),
    ensures
        rewritten_to(
            tree,
            after_steps(tree, write_plan(files, root, sources, updated).steps),
            files,
            root,
            updated,
        ),
    decreases files.len(),
{
    let steps = write_plan(files, root, sources, updated).steps;
    let after = after_steps(tree, steps);
    if files.len() > 0 {
        let n = files.len() - 1;
        let front = files.drop_last();
        let before = after_steps(tree, write_plan(front, root, sources, updated).steps);
        assert(read_from(tree, front, root, sources)) by {
            assert forall|i: int|
                0 <= i < front.len() && (#[trigger] sources[i]) is Ok implies tree.contains_pair(
                place(front[i], root),
                sources[i]->Ok_0,
            ) by {
                assert(front[i] == files[i]);
            }
        }
        lemma_writes_rewrite(front, root, sources, updated, tree);
        let changed = sources[n] != Ok::<Seq<char>, Seq<char>>(updated[n]);
        let last = place(files[n], root);
        if changed {
            let write = FileStepView::Write {
                path: resolved(files.last().path, root),
                text: updated[n],
            };
            assert(steps.drop_last() =~= write_plan(front, root, sources, updated).steps);
            assert(steps.last() == write);
            assert(after == before.insert(last, updated[n]));
        }
        assert forall|i: int| 0 <= i < files.len() && stands_once(files, root, i) implies
            after.contains_pair(place(#[trigger] files[i], root), updated[i]) by {
            if i < n {
                assert(front[i] == files[i]);
                assert(stands_once(front, root, i)) by {
                    assert forall|j: int| 0 <= j < front.len() && j != i implies place(
                        #[trigger] front[j],
                        root,
                    ) != place(front[i], root) by {
                        assert(front[j] == files[j]);
                    }
                }
                assert(place(files[n], root) != place(files[i], root));
            } else if !changed {
                assert(sources[n] is Ok);
                assert forall|j: int| 0 <= j < front.len() implies place(
                    #[trigger] front[j],
                    root,
                ) != last by {
                    assert(front[j] == files[j]);
                }
                assert(agree_on(before, tree, last));
            }
        }
        assert forall|file: Seq<Seq<char>>|
            (forall|i: int| 0 <= i < files.len() ==> place(#[trigger] files[i], root) != file)
            implies #[trigger] agree_on(after, tree, file) by {
            assert forall|j: int| 0 <= j < front.len() implies place(#[trigger] front[j], root)
                != file by {
                assert(front[j] == files[j]);
            }
            assert(agree_on(before, tree, file));
            assert(place(files[n], root) != file);
        }
    }
}

/// Every file of an edit is rewritten by its own edits, from the text that was read of
/// it. Where one cannot be read or rewritten, nothing is, and the failure is that of
/// the first such file.
pub proof fn every_file_is_rewritten(
    files: Seq<FileEditView>,
    encoding: PositionEncoding,
    root: Seq<char>,
    sources: Seq<Result<Seq<char>, Seq<char>>>,
)
    ensures
        match rewrites_of(files, encoding, root, sources) {
            Ok(updated) => updated.len() == files.len() && forall|i: int|
                0 <= i < files.len() ==> (#[trigger] sources[i]) is Ok && rewrite::rewritten(
                    sources[i]->Ok_0,
                    files[i].edits,
                    encoding,
                ) == Ok::<Seq<char>, RewriteError>(updated[i]),
            Err(e) => exists|i: int|
                0 <= i < files.len() && fails_with(#[trigger] files[i], encoding, root, sources[i], e)
                    && forall|j: int|
                    0 <= j < i ==> (#[trigger] sources[j]) is Ok && rewrite::rewritten(
                        sources[j]->Ok_0,
                        files[j].edits,
                        encoding,
                    ) is Ok,
        },
    decreases files.len(),
{
    if files.len() > 0 {
        let n = files.len() - 1;
        let front = files.drop_last();
        every_file_is_rewritten(front, encoding, root, sources);
        assert forall|i: int| 0 <= i < front.len() implies #[trigger] files[i] == front[i] by {}
        match rewrites_of(front, encoding, root, sources) {
            Ok(done) => {
                if let Err(e) = rewrites_of(files, encoding, root, sources) {
                    assert(fails_with(files[n], encoding, root, sources[n], e));
                    assert forall|j: int| 0 <= j < n implies (#[trigger] sources[j]) is Ok
                        && rewrite::rewritten(sources[j]->Ok_0, files[j].edits, encoding) is Ok by {
                        assert(front[j] == files[j]);
                    }
                }
            },
            Err(e) => {
                let i = choose|i: int|
                    0 <= i < front.len() && fails_with(
                        #[trigger] front[i],
                        encoding,
                        root,
                        sources[i],
                        e,
                    ) && forall|j: int|
                        0 <= j < i ==> (#[trigger] sources[j]) is Ok && rewrite::rewritten(
                            sources[j]->Ok_0,
                            front[j].edits,
                            encoding,
                        ) is Ok;
                assert(fails_with(files[i], encoding, root, sources[i], e));
                assert forall|j: int| 0 <= j < i implies (#[trigger] sources[j]) is Ok
                    && rewrite::rewritten(sources[j]->Ok_0, files[j].edits, encoding) is Ok by {
                    assert(front[j] == files[j]);
                }
            },
        }
    }
}

/// Whether rewriting a file fails for this reason: it cannot be read, or its edits
/// cannot be made, and the file is named.
pub open spec fn fails_with(
    file: FileEditView,
    encoding: PositionEncoding,
    root: Seq<char>,
    source: Result<Seq<char>, Seq<char>>,
    e: ErrorView,
) -> bool {
    let named = resolved(file.path, root);
    match source {
        Err(why) => e == ErrorView::Io(why),
        Ok(s) => match rewrite::rewritten(s, file.edits, encoding) {
            Ok(_) => false,
            Err(RewriteError::OutOfRange(pos)) => e == (ErrorView::PositionOutOfRange {
                path: named,
                line: pos.line,
                character: pos.character,
            }),
            Err(RewriteError::Overlapping) => e == ErrorView::OverlappingEdits(named),
            Err(RewriteError::Inverted) => e == ErrorView::InvertedEdit(named),
        },
    }
}

/// File operations do what they say: creating makes an empty file where there is none
/// and leaves one that is there; renaming moves the text of a file; deleting takes the
/// file away. No other file is touched.
pub proof fn file_operations_do_what_they_say(
    tree: Tree,
    root: Seq<char>,
    at: Seq<char>,
    to: Seq<char>,
    other: Seq<Seq<char>>,
)
    ensures
        ({
            let here = path::components(resolved(at, root));
            let there = path::components(resolved(to, root));
            let created = after_step(tree, op_step(FileOperationView::Create { path: at }, root));
            let renamed = after_step(
                tree,
                op_step(FileOperationView::Rename { from: at, to }, root),
            );
            let deleted = after_step(tree, op_step(FileOperationView::Delete { path: at }, root));
            &&& created.dom().contains(here)
            &&& created[here] == if tree.dom().contains(here) {
                tree[here]
            } else {
                Seq::<char>::empty()
            }
            &&& tree.dom().contains(here) ==> renamed.dom().contains(there) && renamed[there]
                == tree[here] && (here != there ==> !renamed.dom().contains(here))
            &&& !deleted.dom().contains(here)
            &&& other != here ==> agree_on(created, tree, other) && agree_on(deleted, tree, other)
            &&& other != here && other != there ==> agree_on(renamed, tree, other)
        }),
{
}

/// What a file operation is shown as names the files that it is about.
pub proof fn file_operations_are_shown(
    root: Seq<char>,
    at: Seq<char>,
    to: Seq<char>,
)
    ensures
        text::finishes_with(
            op_diff(FileOperationView::Create { path: at }, root).diff,
            relativized(at, root),
        ),
        text::finishes_with(
            op_diff(FileOperationView::Delete { path: at }, root).diff,
            relativized(at, root),
        ),
        text::finishes_with(
            op_diff(FileOperationView::Rename { from: at, to }, root).diff,
            relativized(at, root) + " -> "@ + relativized(to, root),
        ),
        text::begins_with(op_diff(FileOperationView::Create { path: at }, root).diff, "create "@),
        text::begins_with(op_diff(FileOperationView::Delete { path: at }, root).diff, "delete "@),
        text::begins_with(
            op_diff(FileOperationView::Rename { from: at, to }, root).diff,
            "rename "@,
        ),
        op_diff(FileOperationView::Create { path: at }, root).path == relativized(at, root),
        op_diff(FileOperationView::Delete { path: at }, root).path == relativized(at, root),
        op_diff(FileOperationView::Rename { from: at, to }, root).path == relativized(to, root),
{
    let a = relativized(at, root);
    let b = relativized(to, root);
    let c = "create "@ + a;
    let d = "delete "@ + a;
    let e = "rename "@ + a + " -> "@ + b;
    assert(c.subrange("create "@.len() as int, c.len() as int) =~= a);
    assert(d.subrange("delete "@.len() as int, d.len() as int) =~= a);
    assert(e.subrange("rename "@.len() as int, e.len() as int) =~= a + " -> "@ + b);
    assert(c.subrange(0, "create "@.len() as int) =~= "create "@);
    assert(d.subrange(0, "delete "@.len() as int) =~= "delete "@);
    assert(e.subrange(0, "rename "@.len() as int) =~= "rename "@);
}

/// The file that a step leaves changed.
pub open spec fn step_file(step: FileStepView) -> Seq<char> {
    match step {
        FileStepView::Write { path, .. } => path,
        FileStepView::CreateIfMissing { path, .. } => path,
        FileStepView::Rename { to, .. } => to,
        FileStepView::DeleteIfPresent { path } => path,
    }
}

/// What is reported as changed is what the steps change, step by step: seen from the
/// root, the reported file is the file of the step.
pub proof fn reports_name_the_files_of_the_steps(
    edit: WorkspaceEditView,
    root: Seq<char>,
    sources: Seq<Result<Seq<char>, Seq<char>>>,
    updated: Seq<Seq<char>>,
    k: int,
)
    requires
        root.len() > 0,
        0 <= k < plan_of(edit, root, sources, updated).steps.len(),
    ensures
        plan_of(edit, root, sources, updated).changed_files.len() == plan_of(
            edit,
            root,
            sources,
            updated,
        ).steps.len(),
        path::components(
            resolved(plan_of(edit, root, sources, updated).changed_files[k], root),
        ) == path::components(step_file(plan_of(edit, root, sources, updated).steps[k])),
{
    each_step_is_reported(edit, root, sources, updated);
    lemma_writes_reported(edit.files, root, sources, updated);
    let writes = write_plan(edit.files, root, sources, updated);
    if k < writes.steps.len() {
        lemma_write_is_named(edit.files, root, sources, updated, k);
    } else {
        let op = edit.file_ops[k - writes.steps.len()];
        match op {
            FileOperationView::Create { path } => lemma_relativized_again(path, root),
            FileOperationView::Rename { from, to } => lemma_relativized_again(to, root),
            FileOperationView::Delete { path } => lemma_relativized_again(path, root),
        }
    }
}

proof fn lemma_relativized_again(p: Seq<char>, root: Seq<char>)
    requires
        root.len() > 0,
    ensures
        path::components(resolved(relativized(p, root), root)) == path::components(
            resolved(p, root),
        ),
{
    let abs = resolved(p, root);
    if let Some(rel) = path::stripped(abs, root) {
        path::join_undoes_strip(abs, root);
        if path::absolute(rel) {
            assert(path::joined(root, rel) == rel);
        }
    } else if !path::absolute(p) {
        path::strip_undoes_join(root, p);
    }
}

proof fn lemma_write_is_named(
    files: Seq<FileEditView>,
    root: Seq<char>,
    sources: Seq<Result<Seq<char>, Seq<char>>>,
    updated: Seq<Seq<char>>,
    k: int,
)
    requires
        root.len() > 0,
        0 <= k < write_plan(files, root, sources, updated).steps.len(),
    ensures
        write_plan(files, root, sources, updated).changed_files.len() == write_plan(
            files,
            root,
            sources,
            updated,
        ).steps.len(),
        path::components(
            resolved(write_plan(files, root, sources, updated).changed_files[k], root),
        ) == path::components(step_file(write_plan(files, root, sources, updated).steps[k])),
    decreases files.len(),
{
    lemma_writes_reported(files, root, sources, updated);
    if files.len() > 0 {
        let front = files.drop_last();
        lemma_writes_reported(front, root, sources, updated);
        let before = write_plan(front, root, sources, updated);
        if k < before.steps.len() {
            lemma_write_is_named(front, root, sources, updated, k);
        } else {
            lemma_relativized_again(files.last().path, root);
        }
    }
}

/// A relative path is seen from the root, and an absolute one stays. Seen from the
/// root and reported again, a path under the root is the path below it, and any other
/// is the whole path.
pub proof fn paths_are_seen_from_the_root(p: Seq<char>, root: Seq<char>)
    requires
        root.len() > 0,
    ensures
        path::absolute(p) ==> resolved(p, root) == p,
        !path::absolute(p) ==> path::components(resolved(p, root)) == path::components(root)
            + path::names(p),
        resolved(resolved(p, root), root) == resolved(p, root) || !path::absolute(root),
        path::under(resolved(p, root), root) ==> path::components(root) + path::components(
            relativized(p, root),
        ) == path::components(resolved(p, root)),
        !path::under(resolved(p, root), root) ==> relativized(p, root) == resolved(p, root),
{
    let seen = resolved(p, root);
    if !path::absolute(p) {
        path::join_appends_components(root, p);
        if path::absolute(root) {
            assert(seen[0] == root[0]);
        }
    }
    if path::under(seen, root) {
        let n = path::components(root).len();
        path::lemma_nonempty_has_component(root);
        path::lemma_behind(seen, n);
        assert(path::components(seen).take(n as int) + path::components(seen).skip(n as int)
            =~= path::components(seen));
    }
}

/// A diff leads from the text before to the text after, in that order, with the lines
/// around each change, and is labelled with the file on both sides. Texts that are the
/// same have none.
pub proof fn diffs_lead_from_before_to_after(
    before: Seq<char>,
    after: Seq<char>,
    file: Seq<char>,
)
    ensures
        before == after ==> diff_of(before, after, file).len() == 0,
        before != after ==> diff_of(before, after, file) == line_diff(
            before,
            after,
            3,
            "a/"@ + file,
            "b/"@ + file,
        ),
{
}

/// A file that is created, and a file that is moved, has the directory made for it that
/// it comes to stand in: the one that its path lacks the last component of.
pub proof fn directories_are_made_for_new_files(op: FileOperationView, root: Seq<char>)
    ensures
        op_step(op, root) matches FileStepView::CreateIfMissing { path, parent } ==> parent is Some
            == path::parent_of(path) is Some && (parent matches Some(dir) ==> path::components(dir)
            == path::components(path).drop_last()),
        op_step(op, root) matches FileStepView::Rename { to, parent, .. } ==> parent is Some
            == path::parent_of(to) is Some && (parent matches Some(dir) ==> path::components(dir)
            == path::components(to).drop_last()),
{
    match op {
        FileOperationView::Create { path } => {
            if path::parent_of(resolved(path, root)) is Some {
                path::parent_drops_last_component(resolved(path, root));
            }
        },
        FileOperationView::Rename { to, .. } => {
            if path::parent_of(resolved(to, root)) is Some {
                path::parent_drops_last_component(resolved(to, root));
            }
        },
        FileOperationView::Delete { .. } => {},
    }
}

} // verus!

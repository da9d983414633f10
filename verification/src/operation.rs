//! Operations: the named actions on code, and the catalog of them.
use vstd::prelude::*;

use crate::edit::{Position, Range, WorkspaceEdit, WorkspaceEditView};
use crate::error::{Error, ErrorView};
use crate::json::{Json, JsonView};
use crate::language::Language;
use crate::path::PathBuf;
use crate::project::{contains_language, copy_languages, Project};
use crate::text;
use crate::text::{is_before, same_text};

verus! {

/// Whether an operation edits code or only reads it.
#[derive(Debug, Clone, Copy, PartialEq, Eq, Structural)]
pub enum OperationKind {
    /// It gives an edit, which can be previewed.
    Edit,
    /// It gives a result and changes nothing.
    Query,
}

/// What an operation acts on.
#[derive(Debug, Clone, Copy, PartialEq, Eq, Structural)]
pub enum TargetKind {
    /// A point in a file.
    Position,
    /// A range in a file.
    Selection,
    /// A whole file.
    File,
    /// The whole project.
    Project,
}

/// Where an operation is to act. Files are relative to the project root unless
/// absolute.
#[derive(Debug, Clone, PartialEq, Eq)]
pub enum Target {
    /// A point in a file.
    Position {
        /// The file.
        file: PathBuf,
        /// The point.
        position: Position,
    },
    /// A range in a file.
    Selection {
        /// The file.
        file: PathBuf,
        /// The range.
        range: Range,
    },
    /// A whole file.
    File {
        /// The file.
        file: PathBuf,
    },
    /// The whole project.
    Project,
}

/// What a [`Target`] says.
pub enum TargetView {
    Position { file: Seq<char>, position: Position },
    Selection { file: Seq<char>, range: Range },
    File { file: Seq<char> },
    Project,
}

impl View for Target {
    type V = TargetView;

    open spec fn view(&self) -> TargetView {
        match self {
            Target::Position { file, position } => TargetView::Position {
                file: file@,
                position: *position,
            },
            Target::Selection { file, range } => TargetView::Selection {
                file: file@,
                range: *range,
            },
            Target::File { file } => TargetView::File { file: file@ },
            Target::Project => TargetView::Project,
        }
    }
}

impl TargetView {
    /// The file that the target names.
    pub open spec fn file(self) -> Option<Seq<char>> {
        match self {
            TargetView::Position { file, .. } => Some(file),
            TargetView::Selection { file, .. } => Some(file),
            TargetView::File { file } => Some(file),
            TargetView::Project => None,
        }
    }

    /// The kind of the target.
    pub open spec fn kind(self) -> TargetKind {
        match self {
            TargetView::Position { .. } => TargetKind::Position,
            TargetView::Selection { .. } => TargetKind::Selection,
            TargetView::File { .. } => TargetKind::File,
            TargetView::Project => TargetKind::Project,
        }
    }

    /// The target with another file.
    pub open spec fn with_file(self, other: Seq<char>) -> TargetView {
        match self {
            TargetView::Position { position, .. } => TargetView::Position {
                file: other,
                position,
            },
            TargetView::Selection { range, .. } => TargetView::Selection { file: other, range },
            TargetView::File { .. } => TargetView::File { file: other },
            TargetView::Project => TargetView::Project,
        }
    }
}

impl Target {
    /// The file that the target names.
    pub fn file(&self) -> (r: Option<&PathBuf>)
        ensures
            r is Some == self@.file() is Some,
            r matches Some(p) ==> Some(p@) == self@.file(),
    {
        match self {
            Target::Position { file, .. } => Some(file),
            Target::Selection { file, .. } => Some(file),
            Target::File { file } => Some(file),
            Target::Project => None,
        }
    }

    /// The target with another file.
    pub fn with_file(&self, other: PathBuf) -> (r: Target)
        ensures
            r@ == self@.with_file(other@),
    {
        match self {
            Target::Position { position, .. } => Target::Position {
                file: other,
                position: *position,
            },
            Target::Selection { range, .. } => Target::Selection { file: other, range: *range },
            Target::File { .. } => Target::File { file: other },
            Target::Project => Target::Project,
        }
    }

    /// A target that says the same.
    pub fn copy(&self) -> (r: Target)
        ensures
            r@ == self@,
    {
        match self {
            Target::Position { file, position } => Target::Position {
                file: file.clone(),
                position: *position,
            },
            Target::Selection { file, range } => Target::Selection {
                file: file.clone(),
                range: *range,
            },
            Target::File { file } => Target::File { file: file.clone() },
            Target::Project => Target::Project,
        }
    }
}

/// What an operation says of itself.
#[derive(Debug, PartialEq, Eq)]
pub struct OperationDescriptor {
    /// Stable identifier, which is also the name of its tool.
    pub id: String,
    /// Title for people.
    pub title: String,
    /// What the operation does, in one line.
    pub description: String,
    /// Whether it edits or only reads.
    pub kind: OperationKind,
    /// The languages it applies to.
    pub languages: Vec<Language>,
    /// What it acts on.
    pub target: TargetKind,
    /// JSON schema of the parameters that are its own.
    pub params_schema: Json,
}

/// What an [`OperationDescriptor`] says.
pub struct DescriptorView {
    pub id: Seq<char>,
    pub title: Seq<char>,
    pub description: Seq<char>,
    pub kind: OperationKind,
    pub languages: Seq<Language>,
    pub target: TargetKind,
    pub params_schema: JsonView,
}

impl View for OperationDescriptor {
    type V = DescriptorView;

    open spec fn view(&self) -> DescriptorView {
        DescriptorView {
            id: self.id@,
            title: self.title@,
            description: self.description@,
            kind: self.kind,
            languages: self.languages@,
            target: self.target,
            params_schema: self.params_schema@,
        }
    }
}

/// Whether an operation applies to one of several languages.
pub open spec fn applies_to_any(d: DescriptorView, languages: Seq<Language>) -> bool {
    exists|i: int| 0 <= i < languages.len() && d.languages.contains(#[trigger] languages[i])
}

impl OperationDescriptor {
    /// Whether the operation applies to `language`.
    pub fn applies_to(&self, language: Language) -> (r: bool)
        ensures
            r == self@.languages.contains(language),
    {
        contains_language(&self.languages, language)
    }

    /// Whether the operation applies to one of `languages`.
    pub fn applies_to_one_of(&self, languages: &Vec<Language>) -> (r: bool)
        ensures
            r == applies_to_any(self@, languages@),
    {
        let mut i: usize = 0;
        while i < languages.len()
            invariant
                i <= languages@.len(),
                forall|j: int| 0 <= j < i ==> !self@.languages.contains(#[trigger] languages@[j]),
            decreases languages@.len() - i,
        {
            if self.applies_to(languages[i]) {
                return true;
            }
            i += 1;
        }
        false
    }

    /// A descriptor that says the same.
    pub fn copy(&self) -> (r: OperationDescriptor)
        ensures
            r@ == self@,
    {
        OperationDescriptor {
            id: self.id.clone(),
            title: self.title.clone(),
            description: self.description.clone(),
            kind: self.kind,
            languages: copy_languages(&self.languages),
            target: self.target,
            params_schema: self.params_schema.copy(),
        }
    }
}

/// What an operation gives.
#[derive(Debug, PartialEq, Eq)]
pub enum OperationOutcome {
    /// An edit to preview or apply.
    Edit(WorkspaceEdit),
    /// A result.
    Query(Json),
}

/// What an [`OperationOutcome`] says.
pub enum OutcomeView {
    Edit(WorkspaceEditView),
    Query(JsonView),
}

impl View for OperationOutcome {
    type V = OutcomeView;

    open spec fn view(&self) -> OutcomeView {
        match self {
            OperationOutcome::Edit(edit) => OutcomeView::Edit(edit@),
            OperationOutcome::Query(value) => OutcomeView::Query(value@),
        }
    }
}

/// A request to run an operation.
#[derive(Debug, PartialEq, Eq)]
pub struct OperationRequest {
    /// Where to act.
    pub target: Target,
    /// The parameters that are the operation's own.
    pub params: Json,
}

/// What an operation runs in: a project, and the session that understands it.
#[derive(Debug)]
pub struct OperationCtx<'a, S> {
    /// The project to act on.
    pub project: &'a Project,
    /// The analysis session.
    pub session: S,
}

// ---------------------------------------------------------------------------
// The catalog
// ---------------------------------------------------------------------------

/// Whether `r` is the catalog of a list of descriptors: ordered by id, holding
/// each id of the list once, and for each id the descriptor that was listed
/// first.
pub open spec fn is_catalog(list: Seq<DescriptorView>, r: Seq<DescriptorView>) -> bool {
    &&& forall|i: int, j: int| 0 <= i < j < r.len() ==> text::text_before(r[i].id, r[j].id)
    &&& forall|k: int| 0 <= k < r.len() ==> listed_first(list, #[trigger] r[k])
    &&& forall|i: int| 0 <= i < list.len() ==> holds_id(r, (#[trigger] list[i]).id)
}

/// Whether a descriptor is in a list, with none of its id before it.
#[verifier::opaque]
pub open spec fn listed_first(list: Seq<DescriptorView>, d: DescriptorView) -> bool {
    exists|i: int| #[trigger] is_first_with_its_id(list, i) && list[i] == d
}

/// Whether a list holds a descriptor with an id.
#[verifier::opaque]
pub open spec fn holds_id(list: Seq<DescriptorView>, id: Seq<char>) -> bool {
    exists|k: int| 0 <= k < list.len() && (#[trigger] list[k]).id == id
}

/// Whether no earlier descriptor has the id of the one at `i`.
pub open spec fn is_first_with_its_id(list: Seq<DescriptorView>, i: int) -> bool {
    0 <= i < list.len() && forall|j: int| 0 <= j < i ==> (#[trigger] list[j]).id != list[i].id
}

/// What a list of descriptors says.
pub open spec fn descriptor_views(v: Seq<OperationDescriptor>) -> Seq<DescriptorView> {
    v.map_values(|d: OperationDescriptor| d@)
}

/// The descriptors of a list that apply to one of several languages.
pub open spec fn applicable(list: Seq<DescriptorView>, languages: Seq<Language>) -> Seq<
    DescriptorView,
>
    decreases list.len(),
{
    if list.len() == 0 {
        seq![]
    } else if applies_to_any(list.last(), languages) {
        applicable(list.drop_last(), languages).push(list.last())
    } else {
        applicable(list.drop_last(), languages)
    }
}

/// The place of the first operation with an id that applies to one of several
/// languages.
pub open spec fn resolved_at(
    list: Seq<DescriptorView>,
    id: Seq<char>,
    languages: Seq<Language>,
) -> Option<int>
    decreases list.len(),
{
    if list.len() == 0 {
        None
    } else {
        match resolved_at(list.drop_last(), id, languages) {
            Some(i) => Some(i),
            None => if list.last().id == id && applies_to_any(list.last(), languages) {
                Some(list.len() - 1)
            } else {
                None
            },
        }
    }
}

/// Puts a descriptor into a list that is ordered by id, unless the list holds
/// its id already.
fn enter(out: &mut Vec<OperationDescriptor>, d: &OperationDescriptor)
    requires
        forall|i: int, j: int|
            0 <= i < j < old(out)@.len() ==> text::text_before(
                descriptor_views(old(out)@)[i].id,
                descriptor_views(old(out)@)[j].id,
            ),
    ensures
        entered(descriptor_views(old(out)@), descriptor_views(final(out)@), d@),
{
    let ghost before = descriptor_views(out@);
    let mut at: usize = 0;
    while at < out.len() && is_before(out[at].id.as_str(), d.id.as_str())
        invariant
            at <= out@.len(),
            before == descriptor_views(out@),
            out@ == old(out)@,
            forall|i: int| 0 <= i < at ==> text::text_before((#[trigger] before[i]).id, d.id@),
        decreases out@.len() - at,
    {
        assert(before[at as int].id == out@[at as int].id@);
        at += 1;
    }
    if at < out.len() && same_text(out[at].id.as_str(), d.id.as_str()) {
        assert(holds_id(before, d@.id)) by {
            reveal(holds_id);
            assert(before[at as int].id == d@.id);
        }
        return;
    }
    proof {
        if at < before.len() {
            assert(before[at as int].id == out@[at as int].id@);
            text::lemma_text_before_total(before[at as int].id, d.id@);
        }
        assert forall|i: int| at <= i < before.len() implies text::text_before(
            d.id@,
            (#[trigger] before[i]).id,
        ) by {
            if i > at {
                text::lemma_text_before_transitive(d.id@, before[at as int].id, before[i].id);
            }
        }
        assert(!holds_id(before, d@.id)) by {
            reveal(holds_id);
            text::lemma_text_before_irreflexive(d.id@);
        }
    }
    out.insert(at, d.copy());
    proof {
        let after = descriptor_views(out@);
        assert(after =~= before.insert(at as int, d@));
        assert forall|i: int, j: int| 0 <= i < j < after.len() implies text::text_before(
            after[i].id,
            after[j].id,
        ) by {
            let a = if i < at {
                i
            } else {
                i - 1
            };
            let b = if j < at {
                j
            } else {
                j - 1
            };
            if i != at && j != at {
                assert(text::text_before(before[a].id, before[b].id));
            }
        }
        assert forall|k: int| 0 <= k < after.len() implies before.contains(#[trigger] after[k])
            || (after[k] == d@ && !holds_id(before, d@.id)) by {
            if k < at {
                assert(before[k] == after[k]);
            } else if k > at {
                assert(before[k - 1] == after[k]);
            }
        }
        assert forall|j: int| 0 <= j < before.len() implies after.contains(
            #[trigger] before[j],
        ) by {
            if j < at {
                assert(after[j] == before[j]);
            } else {
                assert(after[j + 1] == before[j]);
            }
        }
        assert(holds_id(after, d@.id)) by {
            reveal(holds_id);
            assert(after[at as int].id == d@.id);
        }
    }
}

/// One more descriptor at the end of the list.
proof fn lemma_catalog_extended(
    list: Seq<DescriptorView>,
    d: DescriptorView,
    before: Seq<DescriptorView>,
    after: Seq<DescriptorView>,
)
    requires
        is_catalog(list, before),
        entered(before, after, d),
    ensures
        is_catalog(list.push(d), after),
{
    let all = list.push(d);
    assert forall|k: int| 0 <= k < after.len() implies listed_first(all, #[trigger] after[k]) by {
        if before.contains(after[k]) {
            let j = choose|j: int| 0 <= j < before.len() && before[j] == after[k];
            assert(listed_first(list, before[j]));
            lemma_listed_first_pushed(list, d, before[j]);
        } else {
            assert(after[k] == d && !holds_id(before, d.id));
            let i = list.len() as int;
            assert forall|m: int| 0 <= m < i implies (#[trigger] all[m]).id != all[i].id by {
                assert(all[m] == list[m]);
                assert(holds_id(before, list[m].id));
            }
            assert(is_first_with_its_id(all, i) && all[i] == d);
            reveal(listed_first);
        }
    }
    assert forall|i: int| 0 <= i < all.len() implies holds_id(after, (#[trigger] all[i]).id) by {
        if i < list.len() {
            assert(all[i] == list[i]);
            assert(holds_id(before, list[i].id));
            lemma_holds_id_kept(before, after, list[i].id);
        }
    }
}

proof fn lemma_listed_first_pushed(
    list: Seq<DescriptorView>,
    d: DescriptorView,
    x: DescriptorView,
)
    requires
        listed_first(list, x),
    ensures
        listed_first(list.push(d), x),
{
    reveal(listed_first);
    let all = list.push(d);
    let i = choose|i: int| #[trigger] is_first_with_its_id(list, i) && list[i] == x;
    assert forall|m: int| 0 <= m < i implies (#[trigger] all[m]).id != all[i].id by {
        assert(all[m] == list[m]);
    }
    assert(is_first_with_its_id(all, i) && all[i] == x);
}

proof fn lemma_holds_id_kept(
    before: Seq<DescriptorView>,
    after: Seq<DescriptorView>,
    id: Seq<char>,
)
    requires
        holds_id(before, id),
        forall|j: int| 0 <= j < before.len() ==> after.contains(#[trigger] before[j]),
    ensures
        holds_id(after, id),
{
    reveal(holds_id);
    let j = choose|j: int| 0 <= j < before.len() && (#[trigger] before[j]).id == id;
    assert(after.contains(before[j]));
    let k = choose|k: int| 0 <= k < after.len() && after[k] == before[j];
    assert(after[k].id == id);
}

/// Whether `after` is the ordered list `before` with `d` put in, unless `before`
/// holds its id.
spec fn entered(
    before: Seq<DescriptorView>,
    after: Seq<DescriptorView>,
    d: DescriptorView,
) -> bool {
    &&& forall|i: int, j: int|
        0 <= i < j < after.len() ==> text::text_before(after[i].id, after[j].id)
    &&& forall|k: int|
        0 <= k < after.len() ==> before.contains(#[trigger] after[k]) || (after[k] == d
            && !holds_id(before, d.id))
    &&& forall|j: int| 0 <= j < before.len() ==> after.contains(#[trigger] before[j])
    &&& holds_id(after, d.id)
}

/// An operation in the catalog: its descriptor, and the handle that runs it.
#[derive(Debug)]
pub struct Registered<H> {
    /// What the operation says of itself.
    pub descriptor: OperationDescriptor,
    /// What runs it.
    pub operation: H,
}

/// The operations of all languages.
#[derive(Debug)]
pub struct OperationRegistry<H> {
    operations: Vec<Registered<H>>,
}

impl<H> View for OperationRegistry<H> {
    type V = Seq<DescriptorView>;

    /// The descriptors in the order they were added.
    closed spec fn view(&self) -> Seq<DescriptorView> {
        self.operations@.map_values(|r: Registered<H>| r.descriptor@)
    }
}

impl<H> OperationRegistry<H> {
    /// The handles in the order they were added.
    pub closed spec fn handles(&self) -> Seq<H> {
        self.operations@.map_values(|r: Registered<H>| r.operation)
    }

    /// A registry without operations.
    pub fn new() -> (r: Self)
        ensures
            r@ == Seq::<DescriptorView>::empty(),
            r.handles() == Seq::<H>::empty(),
    {
        let r = OperationRegistry { operations: Vec::new() };
        assert(r@ =~= Seq::<DescriptorView>::empty());
        assert(r.handles() =~= Seq::<H>::empty());
        r
    }

    /// Adds one operation.
    pub fn push(&mut self, descriptor: OperationDescriptor, operation: H)
        ensures
            final(self)@ == old(self)@.push(descriptor@),
            final(self).handles() == old(self).handles().push(operation),
    {
        let ghost before = self@;
        let ghost handles = self.handles();
        self.operations.push(Registered { descriptor, operation });
        assert(self@ =~= before.push(descriptor@));
        assert(self.handles() =~= handles.push(operation));
    }

    /// Adds several operations.
    pub fn extend(&mut self, operations: Vec<Registered<H>>)
        ensures
            final(self)@ == old(self)@ + operations@.map_values(
                |r: Registered<H>| r.descriptor@,
            ),
            final(self).handles() == old(self).handles() + operations@.map_values(
                |r: Registered<H>| r.operation,
            ),
    {
        let ghost before = self@;
        let ghost handles = self.handles();
        let mut more = operations;
        self.operations.append(&mut more);
        assert(self@ =~= before + operations@.map_values(|r: Registered<H>| r.descriptor@));
        assert(self.handles() =~= handles + operations@.map_values(
            |r: Registered<H>| r.operation,
        ));
    }

    /// All descriptors, ordered by id. Of several with one id, the one that was
    /// added first.
    pub fn descriptors(&self) -> (r: Vec<OperationDescriptor>)
        ensures
            is_catalog(self@, descriptor_views(r@)),
    {
        let ghost all = self@;
        let mut out: Vec<OperationDescriptor> = Vec::new();
        let mut i: usize = 0;
        assert(all.take(0) =~= seq![]);
        while i < self.operations.len()
            invariant
                i <= self.operations@.len(),
                all == self@,
                is_catalog(all.take(i as int), descriptor_views(out@)),
            decreases self.operations@.len() - i,
        {
            let ghost before = descriptor_views(out@);
            enter(&mut out, &self.operations[i].descriptor);
            proof {
                let after = descriptor_views(out@);
                assert(all[i as int] == self.operations@[i as int].descriptor@);
                lemma_catalog_extended(all.take(i as int), all[i as int], before, after);
                assert(all.take(i + 1) =~= all.take(i as int).push(all[i as int]));
            }
            i += 1;
        }
        assert(all.take(i as int) =~= all);
        out
    }

    /// The descriptors that apply to one of the project's languages, ordered by
    /// id.
    pub fn descriptors_for(&self, project: &Project) -> (r: Vec<OperationDescriptor>)
        ensures
            is_catalog(applicable(self@, project@.languages), descriptor_views(r@)),
    {
        let ghost all = self@;
        let ghost langs = project@.languages;
        let mut out: Vec<OperationDescriptor> = Vec::new();
        let mut i: usize = 0;
        assert(all.take(0) =~= seq![]);
        while i < self.operations.len()
            invariant
                i <= self.operations@.len(),
                all == self@,
                langs == project@.languages,
                is_catalog(applicable(all.take(i as int), langs), descriptor_views(out@)),
            decreases self.operations@.len() - i,
        {
            proof {
                let now = all.take(i + 1);
                assert(now.drop_last() =~= all.take(i as int));
                assert(now.last() == self.operations@[i as int].descriptor@);
            }
            if self.operations[i].descriptor.applies_to_one_of(&project.languages) {
                let ghost before = descriptor_views(out@);
                enter(&mut out, &self.operations[i].descriptor);
                proof {
                    let after = descriptor_views(out@);
                    lemma_catalog_extended(
                        applicable(all.take(i as int), langs),
                        all[i as int],
                        before,
                        after,
                    );
                }
            }
            i += 1;
        }
        assert(all.take(i as int) =~= all);
        out
    }

    /// The operation `id` that applies to one of `languages`: of several, the one
    /// that was added first.
    pub fn resolve(&self, id: &str, languages: &Vec<Language>) -> (r: Result<
        &Registered<H>,
        Error,
    >)
        ensures
            match (r, resolved_at(self@, id@, languages@)) {
                (Ok(found), Some(i)) => 0 <= i < self@.len() && self.handles().len()
                    == self@.len() && found.operation == self.handles()[i]
                    && found.descriptor@ == self@[i],
                (Err(e), None) => e@ == ErrorView::OperationNotAvailable(id@),
                _ => false,
            },
    {
        let ghost all = self@;
        let mut i: usize = 0;
        assert(all.take(0) =~= seq![]);
        while i < self.operations.len()
            invariant
                i <= self.operations@.len(),
                all == self@,
                resolved_at(all.take(i as int), id@, languages@) is None,
            decreases self.operations@.len() - i,
        {
            let d = &self.operations[i].descriptor;
            proof {
                let now = all.take(i + 1);
                assert(now.drop_last() =~= all.take(i as int));
                assert(now.last() == d@);
            }
            if same_text(d.id.as_str(), id) && d.applies_to_one_of(languages) {
                proof {
                    lemma_resolved_stays(all, id@, languages@, i + 1);
                    assert(self.handles()[i as int] == self.operations@[i as int].operation);
                }
                return Ok(&self.operations[i]);
            }
            i += 1;
        }
        assert(all.take(i as int) =~= all);
        Err(Error::OperationNotAvailable(id.to_owned()))
    }
}

/// The first match stays the first when operations follow.
proof fn lemma_resolved_stays(
    list: Seq<DescriptorView>,
    id: Seq<char>,
    languages: Seq<Language>,
    n: int,
)
    requires
        0 <= n <= list.len(),
        resolved_at(list.take(n), id, languages) is Some,
    ensures
        resolved_at(list, id, languages) == resolved_at(list.take(n), id, languages),
    decreases list.len(),
{
    if n == list.len() {
        assert(list.take(n) =~= list);
    } else {
        assert(list.drop_last().take(n) =~= list.take(n));
        lemma_resolved_stays(list.drop_last(), id, languages, n);
    }
}

// ---------------------------------------------------------------------------
// Laws
// ---------------------------------------------------------------------------

/// What resolves is registered, has the id that was asked for, and applies to
/// one of the languages; and nothing that was added before it does.
pub proof fn resolve_finds_the_first_match(
    list: Seq<DescriptorView>,
    id: Seq<char>,
    languages: Seq<Language>,
)
    ensures
        match resolved_at(list, id, languages) {
            Some(i) => 0 <= i < list.len() && list[i].id == id && applies_to_any(
                list[i],
                languages,
            ) && (forall|j: int|
                0 <= j < i ==> (#[trigger] list[j]).id != id || !applies_to_any(
                    list[j],
                    languages,
                )),
            None => forall|j: int|
                0 <= j < list.len() ==> (#[trigger] list[j]).id != id || !applies_to_any(
                    list[j],
                    languages,
                ),
        },
    decreases list.len(),
{
    if list.len() > 0 {
        let front = list.drop_last();
        resolve_finds_the_first_match(front, id, languages);
        match resolved_at(list, id, languages) {
            Some(i) => {
                assert forall|j: int| 0 <= j < i implies (#[trigger] list[j]).id != id
                    || !applies_to_any(list[j], languages) by {
                    assert(front[j] == list[j]);
                }
            },
            None => {
                assert forall|j: int| 0 <= j < list.len() implies (#[trigger] list[j]).id != id
                    || !applies_to_any(list[j], languages) by {
                    if j < front.len() {
                        assert(front[j] == list[j]);
                    }
                }
            },
        }
    }
}

/// The catalog does not depend on how it was made: there is only one.
pub proof fn catalog_is_unique(
    list: Seq<DescriptorView>,
    a: Seq<DescriptorView>,
    b: Seq<DescriptorView>,
)
    requires
        is_catalog(list, a),
        is_catalog(list, b),
    ensures
        a == b,
{
    assert forall|k: int| 0 <= k < a.len() implies b.contains(#[trigger] a[k]) by {
        lemma_catalog_member(list, a, b, k);
    }
    assert forall|k: int| 0 <= k < b.len() implies a.contains(#[trigger] b[k]) by {
        lemma_catalog_member(list, b, a, k);
    }
    lemma_ordered_members_agree(a, b);
}

proof fn lemma_catalog_member(
    list: Seq<DescriptorView>,
    a: Seq<DescriptorView>,
    b: Seq<DescriptorView>,
    k: int,
)
    requires
        is_catalog(list, a),
        is_catalog(list, b),
        0 <= k < a.len(),
    ensures
        b.contains(a[k]),
{
    assert(listed_first(list, a[k]));
    let i = choose|i: int| #[trigger] is_first_with_its_id(list, i) && list[i] == a[k];
    assert(is_first_with_its_id(list, i) && list[i] == a[k]) by {
        reveal(listed_first);
    }
    assert(holds_id(b, list[i].id));
    let m = choose|m: int| 0 <= m < b.len() && (#[trigger] b[m]).id == list[i].id;
    assert(0 <= m < b.len() && b[m].id == list[i].id) by {
        reveal(holds_id);
    }
    assert(listed_first(list, b[m]));
    let j = choose|j: int| #[trigger] is_first_with_its_id(list, j) && list[j] == b[m];
    assert(is_first_with_its_id(list, j) && list[j] == b[m]) by {
        reveal(listed_first);
    }
    if i < j {
        assert(list[i].id != list[j].id);
    }
    if j < i {
        assert(list[j].id != list[i].id);
    }
    assert(b[m] == a[k]);
}

proof fn lemma_ordered_members_agree(a: Seq<DescriptorView>, b: Seq<DescriptorView>)
    requires
        forall|i: int, j: int| 0 <= i < j < a.len() ==> text::text_before(a[i].id, a[j].id),
        forall|i: int, j: int| 0 <= i < j < b.len() ==> text::text_before(b[i].id, b[j].id),
        forall|k: int| 0 <= k < a.len() ==> b.contains(#[trigger] a[k]),
        forall|k: int| 0 <= k < b.len() ==> a.contains(#[trigger] b[k]),
    ensures
        a == b,
    decreases a.len(),
{
    if a.len() == 0 {
        if b.len() > 0 {
            assert(a.contains(b[0]));
        }
        assert(a =~= b);
    } else {
        let x = a.last();
        assert(b.contains(a[a.len() - 1]));
        let m = choose|m: int| 0 <= m < b.len() && b[m] == x;
        let y = b.last();
        assert(a.contains(b[b.len() - 1]));
        let n = choose|n: int| 0 <= n < a.len() && a[n] == y;
        assert(m == b.len() - 1) by {
            if m < b.len() - 1 {
                assert(text::text_before(b[m].id, b[b.len() - 1].id));
                if n < a.len() - 1 {
                    assert(text::text_before(a[n].id, a[a.len() - 1].id));
                }
                text::lemma_text_before_total(x.id, y.id);
                text::lemma_text_before_irreflexive(x.id);
            }
        }
        let fa = a.drop_last();
        let fb = b.drop_last();
        assert forall|k: int| 0 <= k < fa.len() implies fb.contains(#[trigger] fa[k]) by {
            assert(b.contains(a[k]));
            let q = choose|q: int| 0 <= q < b.len() && b[q] == a[k];
            assert(text::text_before(a[k].id, a[a.len() - 1].id));
            text::lemma_text_before_irreflexive(x.id);
            assert(q < fb.len());
            assert(fb[q] == fa[k]);
        }
        assert forall|k: int| 0 <= k < fb.len() implies fa.contains(#[trigger] fb[k]) by {
            assert(a.contains(b[k]));
            let q = choose|q: int| 0 <= q < a.len() && a[q] == b[k];
            assert(text::text_before(b[k].id, b[b.len() - 1].id));
            text::lemma_text_before_irreflexive(x.id);
            assert(q < fa.len());
            assert(fa[q] == fb[k]);
        }
        lemma_ordered_members_agree(fa, fb);
        assert(a =~= fa.push(x));
        assert(b =~= fb.push(y));
    }
}

/// The operations of other languages change nothing for a project: with operations
/// added that apply to none of its languages, the same operations are listed, and
/// the same one is resolved under any id.
pub proof fn other_languages_change_nothing(
    list: Seq<DescriptorView>,
    more: Seq<DescriptorView>,
    languages: Seq<Language>,
    id: Seq<char>,
)
    requires
        forall|i: int| 0 <= i < more.len() ==> !applies_to_any(#[trigger] more[i], languages),
    ensures
        applicable(list + more, languages) == applicable(list, languages),
        resolved_at(list + more, id, languages) == resolved_at(list, id, languages),
    decreases more.len(),
{
    let all = list + more;
    if more.len() == 0 {
        assert(all =~= list);
    } else {
        let front = more.drop_last();
        assert forall|i: int| 0 <= i < front.len() implies !applies_to_any(
            #[trigger] front[i],
            languages,
        ) by {
            assert(front[i] == more[i]);
        }
        other_languages_change_nothing(list, front, languages, id);
        assert(all.drop_last() =~= list + front);
        assert(!applies_to_any(more[more.len() - 1], languages));
        assert(all.last() == more[more.len() - 1]);
    }
}

/// The catalog of a project agrees with what its calls are resolved to: it lists an
/// id exactly when the id is resolved, and lists it with what the operation that it
/// is resolved to says of itself.
pub proof fn catalog_agrees_with_resolution(
    list: Seq<DescriptorView>,
    languages: Seq<Language>,
    catalog: Seq<DescriptorView>,
    id: Seq<char>,
)
    requires
        is_catalog(applicable(list, languages), catalog),
    ensures
        match resolved_at(list, id, languages) {
            Some(at) => 0 <= at < list.len() && catalog.contains(list[at]) && list[at].id == id,
            None => !holds_id(catalog, id),
        },
        forall|k: int|
            0 <= k < catalog.len() && (#[trigger] catalog[k]).id == id ==> (resolved_at(
                list,
                id,
                languages,
            ) matches Some(at) && list[at] == catalog[k]),
{
    reveal(listed_first);
    reveal(holds_id);
    let own = applicable(list, languages);
    lemma_first_of_applicable(list, languages, id);
    assert forall|k: int| 0 <= k < catalog.len() && (#[trigger] catalog[k]).id == id implies (
    resolved_at(list, id, languages) matches Some(at) && list[at] == catalog[k]) by {
        assert(listed_first(own, catalog[k]));
        let i = choose|i: int| #[trigger] is_first_with_its_id(own, i) && own[i] == catalog[k];
        assert(own[i].id == id);
        let at = resolved_at(list, id, languages)->0;
        let j = choose|j: int| #[trigger] is_first_with_its_id(own, j) && own[j] == list[at];
        assert(i == j) by {
            if i < j {
                assert(own[i].id != own[j].id);
            } else if j < i {
                assert(own[j].id != own[i].id);
            }
        }
    }
    if let Some(at) = resolved_at(list, id, languages) {
        let j = choose|j: int| #[trigger] is_first_with_its_id(own, j) && own[j] == list[at];
        assert(holds_id(catalog, own[j].id));
        let k = choose|k: int| 0 <= k < catalog.len() && (#[trigger] catalog[k]).id == id;
        assert(catalog[k] == list[at]);
    }
}

/// What an id is resolved to is the first of its id among the applicable ones.
proof fn lemma_first_of_applicable(
    list: Seq<DescriptorView>,
    languages: Seq<Language>,
    id: Seq<char>,
)
    ensures
        match resolved_at(list, id, languages) {
            Some(at) => 0 <= at < list.len() && list[at].id == id && exists|j: int|
                #[trigger]
                is_first_with_its_id(applicable(list, languages), j) && applicable(
                    list,
                    languages,
                )[j] == list[at],
            None => forall|j: int|
                0 <= j < applicable(list, languages).len() ==> (#[trigger] applicable(
                    list,
                    languages,
                )[j]).id != id,
        },
    decreases list.len(),
{
    if list.len() > 0 {
        let front = list.drop_last();
        lemma_first_of_applicable(front, languages, id);
        let before = applicable(front, languages);
        let all = applicable(list, languages);
        match resolved_at(front, id, languages) {
            Some(at) => {
                let j = choose|j: int|
                    #[trigger] is_first_with_its_id(before, j) && before[j] == front[at];
                assert(all[j] == before[j]);
                assert(is_first_with_its_id(all, j)) by {
                    assert forall|i: int| 0 <= i < j implies (#[trigger] all[i]).id
                        != all[j].id by {
                        assert(before[i].id != before[j].id);
                        assert(all[i] == before[i]);
                    }
                }
            },
            None => {
                if list.last().id == id && applies_to_any(list.last(), languages) {
                    let j = all.len() - 1;
                    assert(all[j] == list.last());
                    assert(is_first_with_its_id(all, j)) by {
                        assert forall|i: int| 0 <= i < j implies (#[trigger] all[i]).id
                            != all[j].id by {
                            assert(all[i] == before[i]);
                        }
                    }
                } else {
                    assert forall|j: int| 0 <= j < all.len() implies (#[trigger] all[j]).id
                        != id by {
                        if j < before.len() {
                            assert(all[j] == before[j]);
                        }
                    }
                }
            },
        }
    }
}

/// An operation applies to a project exactly if they have a language in common, so one
/// more language takes no operation away. The operations of a project are those that
/// apply, and no others.
pub proof fn operations_apply_by_common_languages(
    list: Seq<DescriptorView>,
    d: DescriptorView,
    languages: Seq<Language>,
    l: Language,
)
    ensures
        applies_to_any(d, languages) <==> exists|common: Language| #[trigger]
            d.languages.contains(common) && languages.contains(common),
        applies_to_any(d, languages) ==> applies_to_any(d, languages.push(l)),
        d.languages.contains(l) ==> applies_to_any(d, languages.push(l)),
        applicable(list, languages).contains(d) <==> list.contains(d) && applies_to_any(
            d,
            languages,
        ),
{
    let more = languages.push(l);
    assert(more[languages.len() as int] == l);
    if applies_to_any(d, languages) {
        let i = choose|i: int|
            0 <= i < languages.len() && d.languages.contains(#[trigger] languages[i]);
        assert(languages.contains(languages[i]));
        assert(more[i] == languages[i]);
    }
    if exists|common: Language| #[trigger]
        d.languages.contains(common) && languages.contains(common) {
        let common = choose|common: Language| #[trigger]
            d.languages.contains(common) && languages.contains(common);
        let i = languages.index_of(common);
        assert(d.languages.contains(languages[i]));
    }
    lemma_applicable_holds(list, languages, d);
}

/// What is in the list of the applicable operations.
proof fn lemma_applicable_holds(
    list: Seq<DescriptorView>,
    languages: Seq<Language>,
    d: DescriptorView,
)
    ensures
        applicable(list, languages).contains(d) <==> list.contains(d) && applies_to_any(
            d,
            languages,
        ),
    decreases list.len(),
{
    if list.len() > 0 {
        let front = list.drop_last();
        let last = list.last();
        let before = applicable(front, languages);
        let all = applicable(list, languages);
        lemma_applicable_holds(front, languages, d);
        assert(list =~= front.push(last));
        assert(list[list.len() - 1] == last);
        if front.contains(d) {
            assert(list[front.index_of(d)] == d);
        }
        if list.contains(d) && d != last {
            assert(front[list.index_of(d)] == d);
        }
        if before.contains(d) {
            assert(all[before.index_of(d)] == d);
        }
        if applies_to_any(last, languages) {
            assert(all[before.len() as int] == last);
            if all.contains(d) && d != last {
                assert(before[all.index_of(d)] == d);
            }
        }
    }
}

} // verus!

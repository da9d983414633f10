//! From what a language server sends to the edit model and to query results.
use vstd::prelude::*;

use crate::edit;
use crate::edit::{
    FileEdit, FileEditView, PositionEncoding, Range, TextEdit, TextEditView, WorkspaceEdit,
    WorkspaceEditView,
};
use crate::json;
use crate::json::{Items, Json, JsonView, Members};
use crate::lsp::uri;
use crate::lsp::uri::uri_to_path;
use crate::path;
use crate::path::PathBuf;
use crate::text;
use crate::text::{is_before, same_text};

verus! {

/// One entry of the document changes of an edit.
#[derive(Debug, PartialEq, Eq)]
pub enum LspDocumentChange {
    /// Edits to one document.
    Edits {
        /// URI of the document.
        uri: String,
        /// The edits.
        edits: Vec<TextEdit>,
    },
    /// An operation on a file.
    Resource {
        /// Kind of the operation.
        kind: String,
    },
}

/// A workspace edit as a language server sends it.
#[derive(Debug, PartialEq, Eq)]
pub struct LspWorkspaceEdit {
    /// Edits by URI, in the order of the URIs.
    pub changes: Option<Vec<(String, Vec<TextEdit>)>>,
    /// Changes of documents, in order.
    pub document_changes: Option<Vec<LspDocumentChange>>,
}

/// Edits that belong to one URI.
pub type EditGroup = (Seq<char>, Seq<TextEditView>);

/// The groups once edits to `uri` have been added: behind the edits that the URI
/// has, or as a group of its own in its place.
pub open spec fn added(groups: Seq<EditGroup>, uri: Seq<char>, edits: Seq<TextEditView>) -> Seq<
    EditGroup,
>
    decreases groups.len(),
{
    if groups.len() == 0 {
        seq![(uri, edits)]
    } else if groups[0].0 == uri {
        seq![(uri, groups[0].1 + edits)] + groups.skip(1)
    } else if text::text_before(uri, groups[0].0) {
        seq![(uri, edits)] + groups
    } else {
        seq![groups[0]] + added(groups.skip(1), uri, edits)
    }
}

/// The groups once all entries of a list have been added.
pub open spec fn grouped(groups: Seq<EditGroup>, entries: Seq<EditGroup>) -> Seq<EditGroup>
    decreases entries.len(),
{
    if entries.len() == 0 {
        groups
    } else {
        let before = grouped(groups, entries.drop_last());
        added(before, entries.last().0, entries.last().1)
    }
}

/// The kind of the first operation on a file.
pub open spec fn first_resource(changes: Seq<LspDocumentChange>) -> Option<Seq<char>>
    decreases changes.len(),
{
    if changes.len() == 0 {
        None
    } else {
        match first_resource(changes.drop_last()) {
            Some(kind) => Some(kind),
            None => match changes.last() {
                LspDocumentChange::Resource { kind } => Some(kind@),
                LspDocumentChange::Edits { .. } => None,
            },
        }
    }
}

/// What the entries of a change map say.
pub open spec fn change_entries(changes: Option<Vec<(String, Vec<TextEdit>)>>) -> Seq<EditGroup> {
    match changes {
        Some(v) => v@.map_values(
            |c: (String, Vec<TextEdit>)| (c.0@, edit::edit_views(c.1@)),
        ),
        None => seq![],
    }
}

/// The document changes of an edit.
pub open spec fn document_list(edit: LspWorkspaceEdit) -> Seq<LspDocumentChange> {
    match edit.document_changes {
        Some(v) => v@,
        None => seq![],
    }
}

/// What a document change that holds edits says.
pub open spec fn document_entry(c: LspDocumentChange) -> EditGroup {
    match c {
        LspDocumentChange::Edits { uri, edits } => (uri@, edit::edit_views(edits@)),
        LspDocumentChange::Resource { kind } => (seq![], seq![]),
    }
}

/// The entries of a workspace edit: the changes by URI, then the document changes.
pub open spec fn edit_entries(edit: LspWorkspaceEdit) -> Seq<EditGroup> {
    change_entries(edit.changes) + document_list(edit).map_values(
        |c: LspDocumentChange| document_entry(c),
    )
}

/// All edits of a workspace edit, by URI.
pub open spec fn edit_groups(edit: LspWorkspaceEdit) -> Seq<EditGroup> {
    grouped(seq![], edit_entries(edit))
}

/// Entries can be added in two steps.
proof fn lemma_grouped_in_steps(groups: Seq<EditGroup>, a: Seq<EditGroup>, b: Seq<EditGroup>)
    ensures
        grouped(grouped(groups, a), b) == grouped(groups, a + b),
    decreases b.len(),
{
    if b.len() == 0 {
        assert(a + b =~= a);
    } else {
        assert((a + b).drop_last() =~= a + b.drop_last());
        assert((a + b).last() == b.last());
        lemma_grouped_in_steps(groups, a, b.drop_last());
    }
}

/// The workspace edit that groups of edits make.
pub open spec fn edit_of_groups(groups: Seq<EditGroup>) -> WorkspaceEditView {
    WorkspaceEditView {
        encoding: PositionEncoding::Utf16,
        files: groups.map_values(
            |g: EditGroup| FileEditView { path: uri::path_of(g.0), edits: g.1 },
        ),
        file_ops: seq![],
    }
}

/// What the groups of an exec list say.
spec fn group_views(v: Seq<(String, Vec<TextEdit>)>) -> Seq<EditGroup> {
    v.map_values(|c: (String, Vec<TextEdit>)| (c.0@, edit::edit_views(c.1@)))
}

/// Copies edits behind others.
fn append_edits(out: &mut Vec<TextEdit>, edits: &Vec<TextEdit>)
    ensures
        edit::edit_views(final(out)@) == edit::edit_views(old(out)@) + edit::edit_views(edits@),
{
    let ghost before = edit::edit_views(out@);
    let ghost new = edit::edit_views(edits@);
    let mut i: usize = 0;
    assert(before + new.take(0) =~= before);
    while i < edits.len()
        invariant
            i <= edits@.len(),
            new == edit::edit_views(edits@),
            edit::edit_views(out@) == before + new.take(i as int),
        decreases edits@.len() - i,
    {
        let ghost now = edit::edit_views(out@);
        out.push(TextEdit { range: edits[i].range, new_text: edits[i].new_text.clone() });
        proof {
            assert(edit::edit_views(out@) =~= now.push(new[i as int]));
            assert(before + new.take(i + 1) =~= (before + new.take(i as int)).push(new[i as int]));
        }
        i += 1;
    }
    assert(new.take(i as int) =~= new);
}

/// Adds edits to the group of their URI.
fn add_edits(groups: &mut Vec<(String, Vec<TextEdit>)>, uri: &str, edits: &Vec<TextEdit>)
    ensures
        group_views(final(groups)@) == added(
            group_views(old(groups)@),
            uri@,
            edit::edit_views(edits@),
        ),
{
    let ghost all = group_views(groups@);
    let ghost new = edit::edit_views(edits@);
    let mut i: usize = 0;
    assert(all.skip(0) =~= all);
    assert(all.take(0) + added(all.skip(0), uri@, new) =~= added(all, uri@, new));
    while i < groups.len()
        invariant
            i <= groups@.len(),
            groups@ == old(groups)@,
            all == group_views(groups@),
            new == edit::edit_views(edits@),
            added(all, uri@, new) == all.take(i as int) + added(all.skip(i as int), uri@, new),
        decreases groups@.len() - i,
    {
        let ghost rest = all.skip(i as int);
        assert(rest[0] == (groups@[i as int].0@, edit::edit_views(groups@[i as int].1@)));
        if same_text(groups[i].0.as_str(), uri) {
            let mut merged: Vec<TextEdit> = Vec::new();
            append_edits(&mut merged, &groups[i].1);
            append_edits(&mut merged, edits);
            proof {
                assert(edit::edit_views(Seq::<TextEdit>::empty()) =~= seq![]);
                assert(edit::edit_views(merged@) =~= rest[0].1 + new);
            }
            groups.set(i, (uri.to_owned(), merged));
            assert(group_views(groups@) =~= all.take(i as int) + (seq![(uri@, rest[0].1 + new)]
                + rest.skip(1)));
            return;
        }
        if is_before(uri, groups[i].0.as_str()) {
            let mut copied: Vec<TextEdit> = Vec::new();
            append_edits(&mut copied, edits);
            proof {
                assert(edit::edit_views(Seq::<TextEdit>::empty()) =~= seq![]);
                assert(edit::edit_views(copied@) =~= new);
            }
            groups.insert(i, (uri.to_owned(), copied));
            assert(group_views(groups@) =~= all.take(i as int) + (seq![(uri@, new)] + rest));
            return;
        }
        proof {
            assert(rest.skip(1) =~= all.skip(i + 1));
            assert(all.take(i as int) + (seq![rest[0]] + added(all.skip(i + 1), uri@, new))
                =~= all.take(i + 1) + added(all.skip(i + 1), uri@, new));
        }
        i += 1;
    }
    let mut copied: Vec<TextEdit> = Vec::new();
    append_edits(&mut copied, edits);
    proof {
        assert(edit::edit_views(Seq::<TextEdit>::empty()) =~= seq![]);
        assert(edit::edit_views(copied@) =~= new);
        assert(all.skip(i as int) =~= seq![]);
    }
    groups.push((uri.to_owned(), copied));
    assert(group_views(groups@) =~= all.take(i as int) + seq![(uri@, new)]);
}

/// The edit model of a server's edit; `None` stands for no edit at all. An edit
/// with an operation on a file is refused, and the kind of the first such
/// operation is returned.
pub fn to_core_workspace_edit(value: &Option<LspWorkspaceEdit>) -> (r: Result<WorkspaceEdit, String>)
    ensures
        match *value {
            None => r matches Ok(e) && e@ == edit_of_groups(seq![]),
            Some(lsp) => match (r, first_resource(document_list(lsp))) {
                (Ok(e), None) => e@ == edit_of_groups(edit_groups(lsp)),
                (Err(kind), Some(want)) => kind@ == want,
                _ => false,
            },
        },
{
    let lsp = match value {
        Some(lsp) => lsp,
        None => {
            let e = WorkspaceEdit::empty();
            assert(edit_of_groups(seq![]).files =~= seq![]);
            return Ok(e);
        },
    };
    let mut groups: Vec<(String, Vec<TextEdit>)> = Vec::new();
    let ghost entries = change_entries(lsp.changes);
    assert(group_views(groups@) =~= seq![]);
    if let Some(changes) = &lsp.changes {
        let mut i: usize = 0;
        assert(entries.take(0) =~= seq![]);
        while i < changes.len()
            invariant
                i <= changes@.len(),
                entries == change_entries(Some(*changes)),
                group_views(groups@) == grouped(seq![], entries.take(i as int)),
            decreases changes@.len() - i,
        {
            proof {
                let now = entries.take(i + 1);
                assert(now.drop_last() =~= entries.take(i as int));
                assert(now.last() == (changes@[i as int].0@, edit::edit_views(
                    changes@[i as int].1@,
                )));
            }
            add_edits(&mut groups, changes[i].0.as_str(), &changes[i].1);
            i += 1;
        }
        assert(entries.take(i as int) =~= entries);
    }
    let ghost base = grouped(seq![], entries);
    let ghost list = document_list(*lsp);
    let ghost docs = list.map_values(|c: LspDocumentChange| document_entry(c));
    if let Some(changes) = &lsp.document_changes {
        let mut i: usize = 0;
        assert(docs.take(0) =~= seq![]);
        assert(list.take(0) =~= seq![]);
        while i < changes.len()
            invariant
                i <= changes@.len(),
                list == changes@,
                list == document_list(*lsp),
                *value == Some(*lsp),
                docs == list.map_values(|c: LspDocumentChange| document_entry(c)),
                first_resource(list.take(i as int)) is None,
                group_views(groups@) == grouped(base, docs.take(i as int)),
            decreases changes@.len() - i,
        {
            proof {
                assert(docs.take(i + 1).drop_last() =~= docs.take(i as int));
                assert(docs.take(i + 1).last() == document_entry(changes@[i as int]));
                assert(list.take(i + 1).drop_last() =~= list.take(i as int));
                assert(list.take(i + 1).last() == changes@[i as int]);
            }
            match &changes[i] {
                LspDocumentChange::Edits { uri, edits } => {
                    add_edits(&mut groups, uri.as_str(), edits);
                },
                LspDocumentChange::Resource { kind } => {
                    proof {
                        lemma_first_resource_stays(list, i + 1);
                    }
                    return Err(kind.clone());
                },
            }
            i += 1;
        }
        assert(docs.take(i as int) =~= docs);
        assert(list.take(i as int) =~= list);
    } else {
        assert(docs =~= seq![]);
    }
    let ghost all = group_views(groups@);
    proof {
        lemma_grouped_in_steps(seq![], entries, docs);
    }
    assert(all == edit_groups(*lsp));
    let mut files: Vec<FileEdit> = Vec::new();
    let ghost want = edit_of_groups(all).files;
    let mut k: usize = 0;
    assert(files@.map_values(|f: FileEdit| f@) =~= want.take(0));
    while k < groups.len()
        invariant
            k <= groups@.len(),
            all == group_views(groups@),
            want == edit_of_groups(all).files,
            files@.map_values(|f: FileEdit| f@) == want.take(k as int),
        decreases groups@.len() - k,
    {
        let ghost before = files@.map_values(|f: FileEdit| f@);
        let mut edits: Vec<TextEdit> = Vec::new();
        append_edits(&mut edits, &groups[k].1);
        files.push(FileEdit { path: uri_to_path(groups[k].0.as_str()), edits });
        proof {
            assert(edit::edit_views(Seq::<TextEdit>::empty()) =~= seq![]);
            assert(edit::edit_views(edits@) =~= all[k as int].1);
            assert(files@.last()@ == want[k as int]);
            assert(files@.map_values(|f: FileEdit| f@) =~= before.push(want[k as int]));
            assert(want.take(k + 1) =~= want.take(k as int).push(want[k as int]));
        }
        k += 1;
    }
    assert(want.take(k as int) =~= want);
    let e = WorkspaceEdit { encoding: PositionEncoding::Utf16, files, file_ops: Vec::new() };
    assert(e@ =~= edit_of_groups(all));
    Ok(e)
}

proof fn lemma_first_resource_stays(changes: Seq<LspDocumentChange>, n: int)
    requires
        0 <= n <= changes.len(),
        first_resource(changes.take(n)) is Some,
    ensures
        first_resource(changes) == first_resource(changes.take(n)),
    decreases changes.len(),
{
    if n == changes.len() {
        assert(changes.take(n) =~= changes);
    } else {
        assert(changes.drop_last().take(n) =~= changes.take(n));
        lemma_first_resource_stays(changes.drop_last(), n);
    }
}

// ---------------------------------------------------------------------------
// Usages
// ---------------------------------------------------------------------------

/// A place in a document.
#[derive(Debug, PartialEq, Eq)]
pub struct LspLocation {
    /// URI of the document.
    pub uri: String,
    /// The range in it.
    pub range: Range,
}

/// How a usage is reported: its file, relative to the root where it lies under
/// it, and its range.
pub open spec fn usage_json(uri: Seq<char>, range: Range, root: Seq<char>) -> JsonView {
    let p = uri::path_of(uri);
    let file = match path::stripped(p, root) {
        Some(rel) => rel,
        None => p,
    };
    JsonView::Object(
        json::no_members().push(("file"@, JsonView::Text(file))).push(
            ("start_line"@, json::unsigned_json(range.start.line as u64)),
        ).push(("start_character"@, json::unsigned_json(range.start.character as u64))).push(
            ("end_line"@, json::unsigned_json(range.end.line as u64)),
        ).push(("end_character"@, json::unsigned_json(range.end.character as u64))),
    )
}

/// How a list of usages is reported.
pub open spec fn usages_json(locations: Seq<LspLocation>, root: Seq<char>) -> Seq<JsonView> {
    locations.map_values(|l: LspLocation| usage_json(l.uri@, l.range, root))
}

/// The result of a search for usages; `None` stands for no answer at all.
pub open spec fn query_json(value: Option<Seq<LspLocation>>, root: Seq<char>) -> JsonView {
    match value {
        None => JsonView::Object(
            json::no_members().push(("usages"@, JsonView::Array(json::no_items()))),
        ),
        Some(locations) => JsonView::Object(
            json::no_members().push(
                ("count"@, json::unsigned_json(locations.len() as u64)),
            ).push(("usages"@, JsonView::Array(usages_json(locations, root)))),
        ),
    }
}

/// The result of a search for usages; `None` stands for no answer at all.
pub fn locations_to_query(value: &Option<Vec<LspLocation>>, root: &PathBuf) -> (r: Json)
    ensures
        r@ == match *value {
            None => JsonView::Object(
                json::no_members().push(("usages"@, JsonView::Array(json::no_items()))),
            ),
            Some(locations) => JsonView::Object(
                json::no_members().push(
                    ("count"@, json::unsigned_json(locations@.len() as u64)),
                ).push(("usages"@, JsonView::Array(usages_json(locations@, root@)))),
            ),
        },
        r@ == query_json(
            match *value {
                Some(locations) => Some(locations@),
                None => None,
            },
            root@,
        ),
{
    let locations = match value {
        Some(locations) => locations,
        None => {
            return Members::new().with("usages", Items::new().done()).done();
        },
    };
    let ghost want = usages_json(locations@, root@);
    let mut usages: Vec<Json> = Vec::new();
    let mut i: usize = 0;
    assert(json::json_views(usages@) =~= want.take(0));
    while i < locations.len()
        invariant
            i <= locations@.len(),
            want == usages_json(locations@, root@),
            json::json_views(usages@) == want.take(i as int),
        decreases locations@.len() - i,
    {
        let loc = &locations[i];
        let ghost before = json::json_views(usages@);
        let p = uri_to_path(loc.uri.as_str());
        let file = match p.strip_prefix(root) {
            Some(rel) => rel,
            None => p,
        };
        usages.push(
            Members::new().with("file", Json::text(file.as_str())).with(
                "start_line",
                Json::unsigned(loc.range.start.line as u64),
            ).with("start_character", Json::unsigned(loc.range.start.character as u64)).with(
                "end_line",
                Json::unsigned(loc.range.end.line as u64),
            ).with("end_character", Json::unsigned(loc.range.end.character as u64)).done(),
        );
        proof {
            assert(usages@.last()@ == want[i as int]);
            assert(json::json_views(usages@) =~= before.push(want[i as int]));
            assert(want.take(i + 1) =~= want.take(i as int).push(want[i as int]));
        }
        i += 1;
    }
    assert(want.take(i as int) =~= want);
    Members::new().with("count", Json::unsigned(locations.len() as u64)).with(
        "usages",
        Json::list(usages),
    ).done()
}

// ---------------------------------------------------------------------------
// Laws
// ---------------------------------------------------------------------------

/// Whether groups are ordered by URI, each URI standing once.
pub open spec fn ordered_by_uri(groups: Seq<EditGroup>) -> bool {
    forall|i: int, j: int| 0 <= i < j < groups.len() ==> text::text_before(groups[i].0, groups[j].0)
}

/// The edits of the group of a URI; none where it has no group.
pub open spec fn edits_at(groups: Seq<EditGroup>, uri: Seq<char>) -> Seq<TextEditView>
    decreases groups.len(),
{
    if groups.len() == 0 {
        seq![]
    } else if groups[0].0 == uri {
        groups[0].1
    } else {
        edits_at(groups.skip(1), uri)
    }
}

/// The edits of the entries for a URI, in the order of the entries.
pub open spec fn edits_for(entries: Seq<EditGroup>, uri: Seq<char>) -> Seq<TextEditView>
    decreases entries.len(),
{
    if entries.len() == 0 {
        seq![]
    } else if entries.last().0 == uri {
        edits_for(entries.drop_last(), uri) + entries.last().1
    } else {
        edits_for(entries.drop_last(), uri)
    }
}

proof fn lemma_added(
    groups: Seq<EditGroup>,
    uri: Seq<char>,
    edits: Seq<TextEditView>,
    other: Seq<char>,
)
    requires
        ordered_by_uri(groups),
    ensures
        ordered_by_uri(added(groups, uri, edits)),
        edits_at(added(groups, uri, edits), other) == if other == uri {
            edits_at(groups, uri) + edits
        } else {
            edits_at(groups, other)
        },
        forall|i: int|
            0 <= i < added(groups, uri, edits).len() ==> (#[trigger] added(
                groups,
                uri,
                edits,
            )[i]).0 == uri || exists|j: int|
                0 <= j < groups.len() && (#[trigger] groups[j]).0 == added(groups, uri, edits)[i].0,
    decreases groups.len(),
{
    let out = added(groups, uri, edits);
    if groups.len() == 0 {
        assert(out.skip(1) =~= seq![]);
        assert(edits_at(groups, uri) + edits =~= edits);
        reveal_with_fuel(edits_at, 2);
    } else {
        let rest = groups.skip(1);
        assert(ordered_by_uri(rest)) by {
            assert forall|i: int, j: int| 0 <= i < j < rest.len() implies text::text_before(
                rest[i].0,
                rest[j].0,
            ) by {
                assert(text::text_before(groups[i + 1].0, groups[j + 1].0));
            }
        }
        if groups[0].0 == uri {
            assert(out.skip(1) =~= rest);
            assert forall|i: int, j: int| 0 <= i < j < out.len() implies text::text_before(
                out[i].0,
                out[j].0,
            ) by {
                assert(out[i].0 == groups[i].0 && out[j].0 == groups[j].0);
            }
            assert forall|i: int| 0 <= i < out.len() implies (#[trigger] out[i]).0 == uri
                || exists|j: int| 0 <= j < groups.len() && (#[trigger] groups[j]).0 == out[i].0 by {
                assert(groups[i].0 == out[i].0);
            }
        } else if text::text_before(uri, groups[0].0) {
            assert(out.skip(1) =~= groups);
            assert forall|i: int, j: int| 0 <= i < j < out.len() implies text::text_before(
                out[i].0,
                out[j].0,
            ) by {
                if i == 0 {
                    if j > 1 {
                        assert(text::text_before(groups[0].0, groups[j - 1].0));
                        text::lemma_text_before_transitive(uri, groups[0].0, groups[j - 1].0);
                    }
                } else {
                    assert(text::text_before(groups[i - 1].0, groups[j - 1].0));
                }
            }
            assert forall|i: int| 0 <= i < out.len() implies (#[trigger] out[i]).0 == uri
                || exists|j: int| 0 <= j < groups.len() && (#[trigger] groups[j]).0 == out[i].0 by {
                if i > 0 {
                    assert(groups[i - 1].0 == out[i].0);
                }
            }
            if other == uri {
                lemma_no_group(groups, uri);
                assert(edits_at(groups, uri) + edits =~= edits);
            }
        } else {
            lemma_added(rest, uri, edits, other);
            let tail = added(rest, uri, edits);
            assert(out.skip(1) =~= tail);
            assert forall|i: int, j: int| 0 <= i < j < out.len() implies text::text_before(
                out[i].0,
                out[j].0,
            ) by {
                if i == 0 {
                    let t = tail[j - 1];
                    if t.0 == uri {
                        text::lemma_text_before_total(groups[0].0, uri);
                    } else {
                        let k = choose|k: int| 0 <= k < rest.len() && (#[trigger] rest[k]).0 == t.0;
                        assert(text::text_before(groups[0].0, groups[k + 1].0));
                    }
                } else {
                    assert(text::text_before(tail[i - 1].0, tail[j - 1].0));
                }
            }
            assert forall|i: int| 0 <= i < out.len() implies (#[trigger] out[i]).0 == uri
                || exists|j: int| 0 <= j < groups.len() && (#[trigger] groups[j]).0 == out[i].0 by {
                if i == 0 {
                    assert(groups[0].0 == out[0].0);
                } else {
                    assert(tail[i - 1] == out[i]);
                    if out[i].0 != uri {
                        let k = choose|k: int|
                            0 <= k < rest.len() && (#[trigger] rest[k]).0 == tail[i - 1].0;
                        assert(groups[k + 1].0 == out[i].0);
                    }
                }
            }
        }
    }
}

proof fn lemma_no_group(groups: Seq<EditGroup>, uri: Seq<char>)
    requires
        ordered_by_uri(groups),
        groups.len() > 0,
        text::text_before(uri, groups[0].0),
    ensures
        edits_at(groups, uri) == Seq::<TextEditView>::empty(),
    decreases groups.len(),
{
    reveal_with_fuel(edits_at, 2);
    text::lemma_text_before_irreflexive(uri);
    let rest = groups.skip(1);
    if rest.len() > 0 {
        assert(text::text_before(groups[0].0, groups[1].0));
        text::lemma_text_before_transitive(uri, groups[0].0, groups[1].0);
        assert forall|i: int, j: int| 0 <= i < j < rest.len() implies text::text_before(
            rest[i].0,
            rest[j].0,
        ) by {
            assert(text::text_before(groups[i + 1].0, groups[j + 1].0));
        }
        lemma_no_group(rest, uri);
    }
}

/// The files of a converted edit come in the order of their URIs, each URI once,
/// and each with all its edits in the order in which they were sent.
pub proof fn grouping_keeps_every_edit(entries: Seq<EditGroup>, uri: Seq<char>)
    ensures
        ordered_by_uri(grouped(seq![], entries)),
        edits_at(grouped(seq![], entries), uri) == edits_for(entries, uri),
    decreases entries.len(),
{
    if entries.len() > 0 {
        let front = entries.drop_last();
        grouping_keeps_every_edit(front, uri);
        grouping_keeps_every_edit(front, entries.last().0);
        lemma_added(grouped(seq![], front), entries.last().0, entries.last().1, uri);
    }
}

/// Every usage that the server found is reported, in order: the file that it stands in,
/// and where in it it starts and ends. Seen from the root, the reported file is the
/// file of the location.
pub proof fn every_usage_is_reported(locations: Seq<LspLocation>, root: Seq<char>, i: int)
    requires
        0 <= i < locations.len() <= u64::MAX,
        root.len() > 0,
    ensures
        query_json(Some(locations), root).get("count"@) == Some(
            json::unsigned_json(locations.len() as u64),
        ),
        query_json(Some(locations), root).get("usages"@) matches Some(JsonView::Array(told))
            && told.len() == locations.len() && is_usage(told[i], locations[i], root),
{
    broadcast use json::lemma_lookup_of_pushed;

    reveal_strlit("count");
    reveal_strlit("usages");
    reveal_strlit("file");
    reveal_strlit("start_line");
    reveal_strlit("start_character");
    reveal_strlit("end_line");
    reveal_strlit("end_character");
    assert("count"@.len() == 5);
    assert("usages"@.len() == 6);
    assert("file"@.len() == 4);
    assert("start_line"@.len() == 10);
    assert("start_character"@.len() == 15);
    assert("end_line"@.len() == 8);
    assert("end_character"@.len() == 13);
    let p = uri::path_of(locations[i].uri@);
    if let Some(rel) = path::stripped(p, root) {
        path::join_undoes_strip(p, root);
    }
    assert(usages_json(locations, root)[i] == usage_json(
        locations[i].uri@,
        locations[i].range,
        root,
    ));
}

/// Without an answer no usage is reported.
pub proof fn no_answer_is_no_usage(root: Seq<char>)
    ensures
        query_json(None, root).get("usages"@) == Some(JsonView::Array(Seq::<JsonView>::empty())),
{
    broadcast use json::lemma_lookup_of_pushed;

}

/// Whether a value, read as a usage, is a location: in its file, from its start to its
/// end.
pub open spec fn is_usage(told: JsonView, location: LspLocation, root: Seq<char>) -> bool {
    let p = uri::path_of(location.uri@);
    &&& told.get_text("file"@) matches Some(file) && if path::under(p, root) {
        path::components(path::joined(root, file)) == path::components(p)
    } else {
        file == p
    }
    &&& told.get("start_line"@) == Some(json::unsigned_json(location.range.start.line as u64))
    &&& told.get("start_character"@) == Some(
        json::unsigned_json(location.range.start.character as u64),
    )
    &&& told.get("end_line"@) == Some(json::unsigned_json(location.range.end.line as u64))
    &&& told.get("end_character"@) == Some(
        json::unsigned_json(location.range.end.character as u64),
    )
}

/// The entries of a server's edit are all that it sends: what it gives by URI, and what
/// it gives document by document, each with its own edits.
pub proof fn all_that_is_sent_is_taken(edit: LspWorkspaceEdit)
    ensures
        edit_entries(edit).len() == (match edit.changes {
            Some(v) => v@.len(),
            None => 0,
        }) + (match edit.document_changes {
            Some(v) => v@.len(),
            None => 0,
        }),
        edit.changes matches Some(v) ==> forall|i: int|
            0 <= i < v@.len() ==> #[trigger] edit_entries(edit)[i] == (
                v@[i].0@,
                edit::edit_views(v@[i].1@),
            ),
        edit.document_changes matches Some(v) ==> forall|i: int|
            0 <= i < v@.len() ==> (#[trigger] v@[i] matches LspDocumentChange::Edits {
                uri,
                edits,
            } ==> edit_entries(edit)[change_entries(edit.changes).len() + i] == (
                uri@,
                edit::edit_views(edits@),
            )),
{
    let docs = document_list(edit).map_values(|c: LspDocumentChange| document_entry(c));
    if let Some(v) = edit.document_changes {
        assert forall|i: int| 0 <= i < v@.len() implies (#[trigger] v@[i] matches
            LspDocumentChange::Edits { uri, edits } ==> edit_entries(edit)[change_entries(
            edit.changes,
        ).len() + i] == (uri@, edit::edit_views(edits@))) by {
            assert(docs[i] == document_entry(v@[i]));
        }
    }
}

/// A converted edit holds a file for every URI of the server's edit, at the path of the
/// URI, with all edits that the server sends for it, in the order in which it sends
/// them, counted in UTF-16 units.
pub proof fn converted_edits_hold_every_edit(edit: LspWorkspaceEdit, uri: Seq<char>)
    requires
        exists|i: int|
            0 <= i < edit_entries(edit).len() && (#[trigger] edit_entries(edit)[i]).0 == uri,
    ensures
        exists|k: int|
            0 <= k < edit_of_groups(edit_groups(edit)).files.len() && (
            #[trigger] edit_of_groups(edit_groups(edit)).files[k]) == (FileEditView {
                path: uri::path_of(uri),
                edits: edits_for(edit_entries(edit), uri),
            }),
        edit_of_groups(edit_groups(edit)).encoding == PositionEncoding::Utf16,
        edit_of_groups(edit_groups(edit)).file_ops.len() == 0,
{
    let entries = edit_entries(edit);
    let groups = edit_groups(edit);
    lemma_has_group(entries, uri);
    grouping_keeps_every_edit(entries, uri);
    let k = choose|k: int| 0 <= k < groups.len() && (#[trigger] groups[k]).0 == uri;
    lemma_edits_at(groups, k);
    assert(edit_of_groups(groups).files[k] == (FileEditView {
        path: uri::path_of(uri),
        edits: edits_for(entries, uri),
    }));
}

proof fn lemma_edits_at(groups: Seq<EditGroup>, k: int)
    requires
        ordered_by_uri(groups),
        0 <= k < groups.len(),
    ensures
        edits_at(groups, groups[k].0) == groups[k].1,
    decreases groups.len(),
{
    if k > 0 {
        let rest = groups.skip(1);
        assert(text::text_before(groups[0].0, groups[k].0));
        text::lemma_text_before_irreflexive(groups[k].0);
        assert forall|i: int, j: int| 0 <= i < j < rest.len() implies text::text_before(
            rest[i].0,
            rest[j].0,
        ) by {
            assert(text::text_before(groups[i + 1].0, groups[j + 1].0));
        }
        lemma_edits_at(rest, k - 1);
        assert(rest[k - 1] == groups[k]);
    }
}

proof fn lemma_has_group(entries: Seq<EditGroup>, uri: Seq<char>)
    requires
        exists|i: int| 0 <= i < entries.len() && (#[trigger] entries[i]).0 == uri,
    ensures
        exists|k: int|
            0 <= k < grouped(seq![], entries).len() && (#[trigger] grouped(seq![], entries)[k]).0
                == uri,
    decreases entries.len(),
{
    let front = entries.drop_last();
    let before = grouped(seq![], front);
    lemma_added_has_group(before, entries.last().0, entries.last().1);
    if entries.last().0 != uri {
        let i = choose|i: int| 0 <= i < entries.len() && (#[trigger] entries[i]).0 == uri;
        assert(front[i].0 == uri);
        lemma_has_group(front, uri);
        let k = choose|k: int| 0 <= k < before.len() && (#[trigger] before[k]).0 == uri;
        let after = added(before, entries.last().0, entries.last().1);
        assert(before[k].0 == uri);
        let m = choose|m: int| 0 <= m < after.len() && (#[trigger] after[m]).0 == before[k].0;
        assert(grouped(seq![], entries)[m].0 == uri);
    } else {
        let after = added(before, uri, entries.last().1);
        let m = choose|m: int| 0 <= m < after.len() && (#[trigger] after[m]).0 == uri;
        assert(grouped(seq![], entries)[m].0 == uri);
    }
}

proof fn lemma_added_has_group(
    groups: Seq<EditGroup>,
    uri: Seq<char>,
    edits: Seq<TextEditView>,
)
    ensures
        exists|k: int|
            0 <= k < added(groups, uri, edits).len() && (#[trigger] added(groups, uri, edits)[k]).0
                == uri,
        forall|j: int|
            0 <= j < groups.len() ==> exists|k: int|
                0 <= k < added(groups, uri, edits).len() && (#[trigger] added(
                    groups,
                    uri,
                    edits,
                )[k]).0 == (#[trigger] groups[j]).0,
    decreases groups.len(),
{
    let out = added(groups, uri, edits);
    if groups.len() == 0 {
        assert(out[0].0 == uri);
    } else if groups[0].0 == uri {
        assert(out[0].0 == uri);
        assert forall|j: int| 0 <= j < groups.len() implies exists|k: int|
            0 <= k < out.len() && (#[trigger] out[k]).0 == (#[trigger] groups[j]).0 by {
            assert(out[j].0 == groups[j].0);
        }
    } else if text::text_before(uri, groups[0].0) {
        assert(out[0].0 == uri);
        assert forall|j: int| 0 <= j < groups.len() implies exists|k: int|
            0 <= k < out.len() && (#[trigger] out[k]).0 == (#[trigger] groups[j]).0 by {
            assert(out[j + 1].0 == groups[j].0);
        }
    } else {
        let rest = groups.skip(1);
        let tail = added(rest, uri, edits);
        lemma_added_has_group(rest, uri, edits);
        let k = choose|k: int| 0 <= k < tail.len() && (#[trigger] tail[k]).0 == uri;
        assert(out[k + 1].0 == uri);
        assert forall|j: int| 0 <= j < groups.len() implies exists|k: int|
            0 <= k < out.len() && (#[trigger] out[k]).0 == (#[trigger] groups[j]).0 by {
            if j == 0 {
                assert(out[0].0 == groups[0].0);
            } else {
                assert(rest[j - 1] == groups[j]);
                let m = choose|m: int|
                    0 <= m < tail.len() && (#[trigger] tail[m]).0 == rest[j - 1].0;
                assert(out[m + 1].0 == groups[j].0);
            }
        }
    }
}

/// An edit with an operation on a file is refused, and the first such operation is
/// named; without one it is not.
pub proof fn file_operations_of_servers_are_refused(changes: Seq<LspDocumentChange>)
    ensures
        match first_resource(changes) {
            Some(kind) => exists|i: int|
                0 <= i < changes.len() && (#[trigger] changes[i] matches
                    LspDocumentChange::Resource { kind: k } && k@ == kind) && forall|j: int|
                    0 <= j < i ==> (#[trigger] changes[j]) is Edits,
            None => forall|i: int| 0 <= i < changes.len() ==> (#[trigger] changes[i]) is Edits,
        },
    decreases changes.len(),
{
    if changes.len() > 0 {
        let front = changes.drop_last();
        file_operations_of_servers_are_refused(front);
        assert forall|i: int| 0 <= i < front.len() implies #[trigger] changes[i] == front[i] by {}
        match first_resource(front) {
            Some(kind) => {
                let i = choose|i: int|
                    0 <= i < front.len() && (#[trigger] front[i] matches
                        LspDocumentChange::Resource { kind: k } && k@ == kind) && forall|j: int|
                        0 <= j < i ==> (#[trigger] front[j]) is Edits;
                assert(changes[i] == front[i]);
                assert forall|j: int| 0 <= j < i implies (#[trigger] changes[j]) is Edits by {
                    assert(front[j] is Edits);
                }
            },
            None => {
                assert(changes[changes.len() - 1] == changes.last());
                assert forall|j: int| 0 <= j < front.len() implies (
                #[trigger] changes[j]) is Edits by {
                    assert(front[j] is Edits);
                }
            },
        }
    }
}

} // verus!

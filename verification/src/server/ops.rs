//! Operations as tools, and the arguments of tools as requests.
//!
//! Each operation of the catalog is one tool. The schema of its arguments joins
//! an envelope (project, working copy, target, and `dry_run` for edits) with the
//! schema of the operation's own parameters. A call takes the envelope apart and
//! leaves the rest to the operation.
use vstd::prelude::*;

use crate::backend;
use crate::backend::{described_flag_value, described_value};
use crate::edit::{Position, Range};
use crate::json;
use crate::json::{Items, Json, JsonView, Members};
use crate::operation::{
    DescriptorView, OperationDescriptor, OperationKind, Target, TargetKind, TargetView,
};
use crate::path;
use crate::path::PathBuf;
use crate::server::error::{McpError, McpErrorView};
use crate::text;
use crate::text::{cat2, cat3, chars_of, same_text};

verus! {

// ---------------------------------------------------------------------------
// Tools
// ---------------------------------------------------------------------------

/// The description of an operation's tool.
pub open spec fn tool_description(d: DescriptorView) -> Seq<char> {
    match d.kind {
        OperationKind::Edit => d.description
            + " (edit; defaults to a preview — pass dry_run=false to apply)."@,
        OperationKind::Query => d.description + " (read-only query)."@,
    }
}

/// The schema of an integer of at least zero.
pub open spec fn count_json(description: Seq<char>) -> JsonView {
    JsonView::Object(
        json::no_members().push(("type"@, JsonView::Text("integer"@))).push(
            ("minimum"@, json::unsigned_json(0)),
        ).push(("description"@, JsonView::Text(description))),
    )
}

/// The schema of a line.
pub open spec fn line_json(what: Seq<char>) -> JsonView {
    count_json("Zero-based "@ + what + " line."@)
}

/// The schema of an offset in a line.
pub open spec fn character_json(what: Seq<char>) -> JsonView {
    count_json("Zero-based "@ + what + " character (UTF-16)."@)
}

/// The fields that every tool has.
pub open spec fn common_fields() -> Seq<(Seq<char>, JsonView)> {
    json::no_members().push(
        ("project"@, backend::described("string"@, "Id of the registered project to act on."@)),
    ).push(
        (
            "workspace"@,
            backend::described(
                "string"@,
                "Path to the working copy (git worktree / jj workspace) to apply edits to. Defaults to the project root, or the working copy containing an absolute `file`."@,
            ),
        ),
    )
}

/// The field that names a file.
pub open spec fn file_field() -> (Seq<char>, JsonView) {
    (
        "file"@,
        backend::described(
            "string"@,
            "File path, relative to the project root unless absolute."@,
        ),
    )
}

/// The fields of the envelope for a kind of target.
pub open spec fn envelope_fields(target: TargetKind) -> Seq<(Seq<char>, JsonView)> {
    match target {
        TargetKind::Position => common_fields().push(file_field()).push(
            ("line"@, line_json("target"@)),
        ).push(("character"@, character_json("target"@))),
        TargetKind::Selection => common_fields().push(file_field()).push(
            ("start_line"@, line_json("selection start"@)),
        ).push(("start_character"@, character_json("selection start"@))).push(
            ("end_line"@, line_json("selection end"@)),
        ).push(("end_character"@, character_json("selection end"@))),
        TargetKind::File => common_fields().push(file_field()),
        TargetKind::Project => common_fields(),
    }
}

/// The names of the fields that a call cannot leave out, for a kind of target.
pub open spec fn required_fields(target: TargetKind) -> Seq<JsonView> {
    let project = json::no_items().push(JsonView::Text("project"@));
    match target {
        TargetKind::Position => project.push(JsonView::Text("file"@)).push(
            JsonView::Text("line"@),
        ).push(JsonView::Text("character"@)),
        TargetKind::Selection => project.push(JsonView::Text("file"@)).push(
            JsonView::Text("start_line"@),
        ).push(JsonView::Text("start_character"@)).push(JsonView::Text("end_line"@)).push(
            JsonView::Text("end_character"@),
        ),
        TargetKind::File => project.push(JsonView::Text("file"@)),
        TargetKind::Project => project,
    }
}

/// The members once those of a second list have been given to them, one by one.
pub open spec fn merged(
    members: Seq<(Seq<char>, JsonView)>,
    more: Seq<(Seq<char>, JsonView)>,
) -> Seq<(Seq<char>, JsonView)>
    decreases more.len(),
{
    if more.len() == 0 {
        members
    } else {
        json::assigned(merged(members, more.drop_last()), more.last().0, more.last().1)
    }
}

/// The parameters that the schema of an operation describes.
pub open spec fn own_fields(schema: JsonView) -> Seq<(Seq<char>, JsonView)> {
    match schema.get("properties"@) {
        Some(JsonView::Object(params)) => params,
        _ => json::no_members(),
    }
}

/// The parameters that the schema of an operation requires.
pub open spec fn own_required(schema: JsonView) -> Seq<JsonView> {
    match schema.get("required"@) {
        Some(JsonView::Array(names)) => names,
        _ => json::no_items(),
    }
}

/// The field that asks for a preview.
pub open spec fn dry_run_json() -> JsonView {
    backend::described_flag(
        true,
        "If true (the default), return a diff without modifying files. Pass false to apply."@,
    )
}

/// The fields of an operation's tool.
pub open spec fn tool_fields(d: DescriptorView) -> Seq<(Seq<char>, JsonView)> {
    let fields = merged(envelope_fields(d.target), own_fields(d.params_schema));
    match d.kind {
        OperationKind::Edit => json::assigned(fields, "dry_run"@, dry_run_json()),
        OperationKind::Query => fields,
    }
}

/// The schema of the arguments of an operation's tool.
pub open spec fn input_schema(d: DescriptorView) -> JsonView {
    JsonView::Object(
        json::no_members().push(("type"@, JsonView::Text("object"@))).push(
            ("properties"@, JsonView::Object(tool_fields(d))),
        ).push(
            (
                "required"@,
                JsonView::Array(required_fields(d.target) + own_required(d.params_schema)),
            ),
        ),
    )
}

/// The schema of an integer of at least zero.
fn count_value(description: &str) -> (r: Json)
    ensures
        r@ == count_json(description@),
{
    Members::new().with("type", Json::text("integer")).with("minimum", Json::unsigned(0)).with(
        "description",
        Json::text(description),
    ).done()
}

/// The schema of a line.
fn line_value(what: &str) -> (r: Json)
    ensures
        r@ == line_json(what@),
{
    count_value(cat3("Zero-based ", what, " line.").as_str())
}

/// The schema of an offset in a line.
fn character_value(what: &str) -> (r: Json)
    ensures
        r@ == character_json(what@),
{
    count_value(cat3("Zero-based ", what, " character (UTF-16).").as_str())
}

/// The fields of the envelope for a kind of target.
fn envelope(target: TargetKind) -> (r: Members)
    ensures
        r@ == envelope_fields(target),
{
    let common = Members::new().with(
        "project",
        described_value("string", "Id of the registered project to act on."),
    ).with(
        "workspace",
        described_value(
            "string",
            "Path to the working copy (git worktree / jj workspace) to apply edits to. Defaults to the project root, or the working copy containing an absolute `file`.",
        ),
    );
    let file = described_value(
        "string",
        "File path, relative to the project root unless absolute.",
    );
    match target {
        TargetKind::Position => common.with("file", file).with("line", line_value("target")).with(
            "character",
            character_value("target"),
        ),
        TargetKind::Selection => common.with("file", file).with(
            "start_line",
            line_value("selection start"),
        ).with("start_character", character_value("selection start")).with(
            "end_line",
            line_value("selection end"),
        ).with("end_character", character_value("selection end")),
        TargetKind::File => common.with("file", file),
        TargetKind::Project => common,
    }
}

/// The names of the fields that a call cannot leave out, for a kind of target.
fn required(target: TargetKind) -> (r: Items)
    ensures
        r@ == required_fields(target),
{
    let project = Items::new().with(Json::text("project"));
    match target {
        TargetKind::Position => project.with(Json::text("file")).with(Json::text("line")).with(
            Json::text("character"),
        ),
        TargetKind::Selection => project.with(Json::text("file")).with(
            Json::text("start_line"),
        ).with(Json::text("start_character")).with(Json::text("end_line")).with(
            Json::text("end_character"),
        ),
        TargetKind::File => project.with(Json::text("file")),
        TargetKind::Project => project,
    }
}

/// Gives the members of an object to others, one by one. Other values give
/// nothing.
fn merge(fields: &mut Members, more: &Json)
    ensures
        final(fields)@ == match more@ {
            JsonView::Object(params) => merged(old(fields)@, params),
            _ => old(fields)@,
        },
{
    if let Json::Object(params) = more {
        proof {
            json::lemma_object_view(*params);
        }
        let ghost all = json::member_views(params@);
        let ghost before = fields@;
        let mut i: usize = 0;
        assert(all.take(0) =~= seq![]);
        while i < params.len()
            invariant
                i <= params@.len(),
                all == json::member_views(params@),
                fields@ == merged(before, all.take(i as int)),
            decreases params@.len() - i,
        {
            proof {
                let now = all.take(i + 1);
                assert(now.drop_last() =~= all.take(i as int));
                assert(now.last() == (params@[i as int].0@, params@[i as int].1@));
            }
            fields.set(params[i].0.as_str(), params[i].1.copy());
            i += 1;
        }
        assert(all.take(i as int) =~= all);
    }
}

/// The items of `list` followed by those of a list. Other values add nothing.
fn append(list: Items, more: &Json) -> (r: Items)
    ensures
        r@ == match more@ {
            JsonView::Array(names) => list@ + names,
            _ => list@,
        },
{
    let mut out = list;
    if let Json::Array(names) = more {
        proof {
            json::lemma_array_view(*names);
        }
        let ghost all = json::json_views(names@);
        let ghost before = list@;
        let mut i: usize = 0;
        assert(before + all.take(0) =~= before);
        while i < names.len()
            invariant
                i <= names@.len(),
                all == json::json_views(names@),
                out@ == before + all.take(i as int),
            decreases names@.len() - i,
        {
            out = out.with(names[i].copy());
            assert(before + all.take(i + 1) =~= (before + all.take(i as int)).push(
                names@[i as int]@,
            ));
            i += 1;
        }
        assert(all.take(i as int) =~= all);
    }
    out
}

/// The schema of the arguments of an operation's tool.
pub fn build_input_schema(descriptor: &OperationDescriptor) -> (r: Json)
    ensures
        r@ == input_schema(descriptor@),
{
    let mut fields = envelope(descriptor.target);
    let ghost start = fields@;
    let mut names = required(descriptor.target);
    let ghost wanted = names@;
    if let Some(params) = descriptor.params_schema.get("properties") {
        merge(&mut fields, params);
    }
    if let Some(more) = descriptor.params_schema.get("required") {
        names = append(names, more);
    }
    assert(merged(start, json::no_members()) == start);
    assert(wanted + json::no_items() =~= wanted);
    assert(fields@ == merged(start, own_fields(descriptor@.params_schema)));
    assert(names@ == wanted + own_required(descriptor@.params_schema));
    if descriptor.kind == OperationKind::Edit {
        fields.set(
            "dry_run",
            described_flag_value(
                true,
                "If true (the default), return a diff without modifying files. Pass false to apply.",
            ),
        );
    }
    Members::new().with("type", Json::text("object")).with("properties", fields.done()).with(
        "required",
        names.done(),
    ).done()
}

/// A tool: its name, what it does, and the schema of its arguments.
#[derive(Debug)]
pub struct OperationTool {
    /// The name.
    pub name: String,
    /// What the tool does.
    pub description: String,
    /// The schema of its arguments.
    pub input_schema: Json,
}

/// The tool of an operation.
pub fn operation_tool(descriptor: &OperationDescriptor) -> (r: OperationTool)
    ensures
        r.name@ == descriptor@.id,
        r.description@ == tool_description(descriptor@),
        r.input_schema@ == input_schema(descriptor@),
{
    let description = match descriptor.kind {
        OperationKind::Edit => cat2(
            descriptor.description.as_str(),
            " (edit; defaults to a preview — pass dry_run=false to apply).",
        ),
        OperationKind::Query => cat2(descriptor.description.as_str(), " (read-only query)."),
    };
    OperationTool {
        name: descriptor.id.clone(),
        description,
        input_schema: build_input_schema(descriptor),
    }
}

// ---------------------------------------------------------------------------
// Calls
// ---------------------------------------------------------------------------

/// The text of a field that a call cannot leave out.
pub open spec fn required_text(args: JsonView, key: Seq<char>) -> Result<Seq<char>, McpErrorView> {
    match args.get_text(key) {
        Some(s) => Ok(s),
        None => Err(McpErrorView::InvalidParams("missing or non-string `"@ + key + "`"@)),
    }
}

/// The number of a field that a call cannot leave out.
pub open spec fn required_count(args: JsonView, key: Seq<char>) -> Result<u32, McpErrorView> {
    let given = match args.get(key) {
        Some(v) => v.unsigned(),
        None => None,
    };
    match given {
        Some(n) if n <= u32::MAX => Ok(n as u32),
        _ => Err(
            McpErrorView::InvalidParams(
                "missing or invalid `"@ + key + "` (expected a non-negative integer)"@,
            ),
        ),
    }
}

/// The position that two fields give.
pub open spec fn required_position(
    args: JsonView,
    line: Seq<char>,
    character: Seq<char>,
) -> Result<Position, McpErrorView> {
    match required_count(args, line) {
        Err(e) => Err(e),
        Ok(line) => match required_count(args, character) {
            Err(e) => Err(e),
            Ok(character) => Ok(Position { line, character }),
        },
    }
}

/// The target that a call names. Of several fields that are missing or wrong, the
/// first is reported.
pub open spec fn target_of(args: JsonView, kind: TargetKind) -> Result<TargetView, McpErrorView> {
    match kind {
        TargetKind::Project => Ok(TargetView::Project),
        _ => match required_text(args, "file"@) {
            Err(e) => Err(e),
            Ok(file) => match kind {
                TargetKind::Position => match required_position(args, "line"@, "character"@) {
                    Err(e) => Err(e),
                    Ok(position) => Ok(TargetView::Position { file, position }),
                },
                TargetKind::Selection => match required_position(
                    args,
                    "start_line"@,
                    "start_character"@,
                ) {
                    Err(e) => Err(e),
                    Ok(start) => match required_position(args, "end_line"@, "end_character"@) {
                        Err(e) => Err(e),
                        Ok(end) => Ok(TargetView::Selection { file, range: Range { start, end } }),
                    },
                },
                _ => Ok(TargetView::File { file }),
            },
        },
    }
}

/// The id of the project that a call names.
pub fn project_id(args: &Json) -> (r: Result<String, McpError>)
    ensures
        match (r, args@.get_text("project"@)) {
            (Ok(id), Some(want)) => id@ == want,
            (Err(e), None) => e@ == McpErrorView::InvalidParams("missing required `project`"@),
            _ => false,
        },
{
    match args.get_str("project") {
        Some(id) => Ok(id.to_owned()),
        None => Err(McpError::InvalidParams("missing required `project`".to_owned())),
    }
}

/// The working copy that a call names, if it names one.
pub open spec fn named_workspace(args: JsonView) -> Option<Seq<char>> {
    match args.get_text("workspace"@) {
        Some(s) if s.len() > 0 => Some(s),
        _ => None,
    }
}

/// The working copy that a call names, if it names one.
pub fn workspace(args: &Json) -> (r: Option<PathBuf>)
    ensures
        path::optional(r) == named_workspace(args@),
{
    match args.get_str("workspace") {
        Some(s) => if chars_of(s).len() > 0 {
            Some(PathBuf::new(s))
        } else {
            None
        },
        None => None,
    }
}

/// Whether a call asks for a preview, which it does unless it says otherwise.
pub open spec fn wants_preview(args: JsonView) -> bool {
    match args.get("dry_run"@) {
        Some(v) => match v.truth() {
            Some(b) => b,
            None => true,
        },
        None => true,
    }
}

/// Whether a call asks for a preview, which it does unless it says otherwise.
pub fn dry_run(args: &Json) -> (r: bool)
    ensures
        r == wants_preview(args@),
{
    match args.get("dry_run") {
        Some(v) => match v.as_bool() {
            Some(b) => b,
            None => true,
        },
        None => true,
    }
}

/// What a call expects to stand at its target, if it says so.
pub fn expect(args: &Json) -> (r: Option<String>)
    ensures
        text::optional(r) == args@.get_text("expect"@),
{
    match args.get_str("expect") {
        Some(s) => Some(s.to_owned()),
        None => None,
    }
}

/// The text of a field that a call cannot leave out.
fn get_str(args: &Json, key: &str) -> (r: Result<String, McpError>)
    ensures
        match (r, required_text(args@, key@)) {
            (Ok(s), Ok(want)) => s@ == want,
            (Err(e), Err(want)) => e@ == want,
            _ => false,
        },
{
    match args.get_str(key) {
        Some(s) => Ok(s.to_owned()),
        None => Err(McpError::InvalidParams(cat3("missing or non-string `", key, "`"))),
    }
}

/// The number of a field that a call cannot leave out.
fn get_u32(args: &Json, key: &str) -> (r: Result<u32, McpError>)
    ensures
        match (r, required_count(args@, key@)) {
            (Ok(n), Ok(want)) => n == want,
            (Err(e), Err(want)) => e@ == want,
            _ => false,
        },
{
    let given = match args.get(key) {
        Some(v) => v.as_u64(),
        None => None,
    };
    if let Some(n) = given {
        if n <= u32::MAX as u64 {
            return Ok(n as u32);
        }
    }
    Err(
        McpError::InvalidParams(
            cat3("missing or invalid `", key, "` (expected a non-negative integer)"),
        ),
    )
}

/// The position that two fields give.
fn get_position(args: &Json, line: &str, character: &str) -> (r: Result<Position, McpError>)
    ensures
        match (r, required_position(args@, line@, character@)) {
            (Ok(p), Ok(want)) => p == want,
            (Err(e), Err(want)) => e@ == want,
            _ => false,
        },
{
    match get_u32(args, line) {
        Err(e) => Err(e),
        Ok(line) => match get_u32(args, character) {
            Err(e) => Err(e),
            Ok(character) => Ok(Position { line, character }),
        },
    }
}

/// The target that a call names.
pub fn parse_target(args: &Json, kind: TargetKind) -> (r: Result<Target, McpError>)
    ensures
        match (r, target_of(args@, kind)) {
            (Ok(t), Ok(want)) => t@ == want,
            (Err(e), Err(want)) => e@ == want,
            _ => false,
        },
{
    if kind == TargetKind::Project {
        return Ok(Target::Project);
    }
    let file = match get_str(args, "file") {
        Ok(file) => PathBuf::new(file.as_str()),
        Err(e) => return Err(e),
    };
    match kind {
        TargetKind::Position => match get_position(args, "line", "character") {
            Ok(position) => Ok(Target::Position { file, position }),
            Err(e) => Err(e),
        },
        TargetKind::Selection => {
            let start = match get_position(args, "start_line", "start_character") {
                Ok(p) => p,
                Err(e) => return Err(e),
            };
            match get_position(args, "end_line", "end_character") {
                Ok(end) => Ok(Target::Selection { file, range: Range { start, end } }),
                Err(e) => Err(e),
            }
        },
        _ => Ok(Target::File { file }),
    }
}

/// Whether a field belongs to the envelope.
pub open spec fn envelope_key(key: Seq<char>) -> bool {
    key == "project"@ || key == "workspace"@ || key == "file"@ || key == "line"@ || key
        == "character"@ || key == "start_line"@ || key == "start_character"@ || key == "end_line"@
        || key == "end_character"@ || key == "dry_run"@
}

/// The members that do not belong to the envelope.
pub open spec fn unenveloped(members: Seq<(Seq<char>, JsonView)>) -> Seq<(Seq<char>, JsonView)> {
    members.filter(|m: (Seq<char>, JsonView)| !envelope_key(m.0))
}

/// The parameters that a call leaves to the operation.
pub open spec fn params_of(args: JsonView) -> JsonView {
    match args {
        JsonView::Object(members) => JsonView::Object(unenveloped(members)),
        _ => JsonView::Object(json::no_members()),
    }
}

/// Whether a field belongs to the envelope.
fn is_envelope_key(key: &str) -> (r: bool)
    ensures
        r == envelope_key(key@),
{
    same_text(key, "project") || same_text(key, "workspace") || same_text(key, "file")
        || same_text(key, "line") || same_text(key, "character") || same_text(key, "start_line")
        || same_text(key, "start_character") || same_text(key, "end_line") || same_text(
        key,
        "end_character",
    ) || same_text(key, "dry_run")
}

/// The parameters that a call leaves to the operation.
pub fn operation_params(args: &Json) -> (r: Json)
    ensures
        r@ == params_of(args@),
{
    let mut out = Members::new();
    if let Json::Object(members) = args {
        proof {
            json::lemma_object_view(*members);
        }
        let ghost all = json::member_views(members@);
        let ghost keep = |m: (Seq<char>, JsonView)| !envelope_key(m.0);
        let mut i: usize = 0;
        assert(all.take(0) =~= seq![]);
        assert(all.take(0).filter(keep) =~= seq![]) by {
            reveal(Seq::filter);
        }
        while i < members.len()
            invariant
                i <= members@.len(),
                all == json::member_views(members@),
                keep == (|m: (Seq<char>, JsonView)| !envelope_key(m.0)),
                out@ == all.take(i as int).filter(keep),
            decreases members@.len() - i,
        {
            proof {
                let now = all.take(i + 1);
                assert(now.drop_last() =~= all.take(i as int));
                assert(now.last() == (members@[i as int].0@, members@[i as int].1@));
                reveal(Seq::filter);
            }
            if !is_envelope_key(members[i].0.as_str()) {
                out = out.with(members[i].0.as_str(), members[i].1.copy());
            }
            i += 1;
        }
        assert(all.take(i as int) =~= all);
    }
    out.done()
}

// ---------------------------------------------------------------------------
// Laws
// ---------------------------------------------------------------------------

/// The member with a key, among members from which others have been taken out.
proof fn lemma_lookup_unenveloped(members: Seq<(Seq<char>, JsonView)>, key: Seq<char>)
    ensures
        json::lookup(unenveloped(members), key) == if envelope_key(key) {
            None
        } else {
            json::lookup(members, key)
        },
    decreases members.len(),
{
    let keep = |m: (Seq<char>, JsonView)| !envelope_key(m.0);
    if members.len() == 0 {
        reveal(Seq::filter);
        assert(unenveloped(members) =~= seq![]);
    } else {
        let rest = members.skip(1);
        lemma_lookup_unenveloped(rest, key);
        assert(members =~= seq![members[0]] + rest);
        Seq::filter_distributes_over_add(seq![members[0]], rest, keep);
        assert(seq![members[0]].filter(keep) =~= if keep(members[0]) {
            seq![members[0]]
        } else {
            seq![]
        }) by {
            reveal(Seq::filter);
            assert(seq![members[0]].drop_last() =~= seq![]);
            assert(Seq::<(Seq<char>, JsonView)>::empty().filter(keep) =~= seq![]);
        }
        if keep(members[0]) {
            let all = unenveloped(members);
            assert(all[0] == members[0]);
            assert(all.skip(1) =~= unenveloped(rest));
        } else {
            assert(unenveloped(members) =~= unenveloped(rest));
        }
    }
}

/// No field of the envelope reaches the operation, and every other field reaches
/// it unchanged.
pub proof fn envelope_is_taken_out(args: JsonView, key: Seq<char>)
    requires
        args is Object,
    ensures
        params_of(args).get(key) == if envelope_key(key) {
            None
        } else {
            args.get(key)
        },
{
    lemma_lookup_unenveloped(args->Object_0, key);
}

/// Whether members have a key.
pub open spec fn has_key(members: Seq<(Seq<char>, JsonView)>, key: Seq<char>) -> bool {
    exists|i: int| 0 <= i < members.len() && (#[trigger] members[i]).0 == key
}

/// Giving a key a value takes no key away.
proof fn lemma_assigned_keys(
    members: Seq<(Seq<char>, JsonView)>,
    key: Seq<char>,
    value: JsonView,
    other: Seq<char>,
)
    ensures
        has_key(members, other) || other == key ==> has_key(
            json::assigned(members, key, value),
            other,
        ),
    decreases members.len(),
{
    let all = json::assigned(members, key, value);
    if members.len() == 0 {
        assert(all[0] == (key, value));
    } else if members[0].0 == key {
        assert(all[0] == (key, value));
        if has_key(members, other) && other != key {
            let i = choose|i: int| 0 <= i < members.len() && (#[trigger] members[i]).0 == other;
            assert(all[i] == members.skip(1)[i - 1]);
        }
    } else {
        let rest = members.skip(1);
        let after = json::assigned(rest, key, value);
        lemma_assigned_keys(rest, key, value, other);
        assert(all[0] == members[0]);
        if has_key(members, other) || other == key {
            if members[0].0 != other {
                if has_key(members, other) {
                    let i = choose|i: int|
                        0 <= i < members.len() && (#[trigger] members[i]).0 == other;
                    assert(rest[i - 1] == members[i]);
                }
                let j = choose|j: int| 0 <= j < after.len() && (#[trigger] after[j]).0 == other;
                assert(all[j + 1] == after[j]);
            }
        }
    }
}

/// Merging takes no key away.
proof fn lemma_merged_keys(
    members: Seq<(Seq<char>, JsonView)>,
    more: Seq<(Seq<char>, JsonView)>,
    key: Seq<char>,
)
    ensures
        has_key(members, key) || has_key(more, key) ==> has_key(merged(members, more), key),
    decreases more.len(),
{
    if more.len() > 0 {
        let front = more.drop_last();
        lemma_merged_keys(members, front, key);
        lemma_assigned_keys(merged(members, front), more.last().0, more.last().1, key);
        if has_key(more, key) {
            let i = choose|i: int| 0 <= i < more.len() && (#[trigger] more[i]).0 == key;
            if i < more.len() - 1 {
                assert(front[i] == more[i]);
            }
        }
    }
}

/// The schema of a tool describes every field of the envelope and every parameter
/// of its operation; that of an edit describes `dry_run` too.
pub proof fn schema_describes_its_fields(d: DescriptorView, key: Seq<char>)
    ensures
        has_key(envelope_fields(d.target), key) ==> has_key(tool_fields(d), key),
        has_key(own_fields(d.params_schema), key) ==> has_key(tool_fields(d), key),
        d.kind == OperationKind::Edit ==> has_key(tool_fields(d), "dry_run"@),
{
    let fields = merged(envelope_fields(d.target), own_fields(d.params_schema));
    lemma_merged_keys(envelope_fields(d.target), own_fields(d.params_schema), key);
    if d.kind == OperationKind::Edit {
        lemma_assigned_keys(fields, "dry_run"@, dry_run_json(), key);
        lemma_assigned_keys(fields, "dry_run"@, dry_run_json(), "dry_run"@);
    }
}

/// Every field of the envelope that a tool requires is one that it describes.
pub proof fn required_fields_are_described(target: TargetKind, i: int)
    requires
        0 <= i < required_fields(target).len(),
    ensures
        required_fields(target)[i] matches JsonView::Text(key) && has_key(
            envelope_fields(target),
            key,
        ),
{
    let fields = envelope_fields(target);
    let k = if i == 0 {
        0
    } else {
        i + 1
    };
    assert(JsonView::Text(fields[k].0) == required_fields(target)[i]);
}

/// Whether two calls are the same but for `dry_run`.
pub open spec fn same_but_for_preview(a: JsonView, b: JsonView) -> bool {
    &&& params_of(a) == params_of(b)
    &&& forall|key: Seq<char>| key != "dry_run"@ ==> #[trigger] a.get(key) == b.get(key)
}

/// A call that does not say `dry_run` is a preview; saying that it is none changes
/// nothing else of it.
pub proof fn calls_are_previews_unless_they_say_otherwise(members: Seq<(Seq<char>, JsonView)>)
    requires
        json::lookup(members, "dry_run"@) is None,
    ensures
        wants_preview(JsonView::Object(members)),
        !wants_preview(
            JsonView::Object(members.push(("dry_run"@, JsonView::Bool(false)))),
        ),
        same_but_for_preview(
            JsonView::Object(members),
            JsonView::Object(members.push(("dry_run"@, JsonView::Bool(false)))),
        ),
{
    let last = ("dry_run"@, JsonView::Bool(false));
    let more = members.push(last);
    json::lemma_lookup_pushed(members, last, "dry_run"@);
    assert forall|key: Seq<char>| key != "dry_run"@ implies #[trigger] JsonView::Object(
        members,
    ).get(key) == JsonView::Object(more).get(key) by {
        json::lemma_lookup_pushed(members, last, key);
    }
    assert(more.drop_last() =~= members);
    assert(unenveloped(more) == unenveloped(members)) by {
        reveal(Seq::filter);
    }
}

/// The target of a call is at the place that the call gives: each of its parts is
/// the field of that name.
pub proof fn targets_are_where_the_call_says(
    args: JsonView,
    file: Seq<char>,
    start: Position,
    end: Position,
)
    requires
        args.get_text("file"@) == Some(file),
    ensures
        target_of(args, TargetKind::Project) == Ok::<TargetView, McpErrorView>(TargetView::Project),
        target_of(args, TargetKind::File) == Ok::<TargetView, McpErrorView>(
            TargetView::File { file },
        ),
        args.get("line"@) == Some(json::unsigned_json(start.line as u64)) && args.get("character"@)
            == Some(json::unsigned_json(start.character as u64)) ==> target_of(
            args,
            TargetKind::Position,
        ) == Ok::<TargetView, McpErrorView>(TargetView::Position { file, position: start }),
        args.get("start_line"@) == Some(json::unsigned_json(start.line as u64)) && args.get(
            "start_character"@,
        ) == Some(json::unsigned_json(start.character as u64)) && args.get("end_line"@) == Some(
            json::unsigned_json(end.line as u64),
        ) && args.get("end_character"@) == Some(json::unsigned_json(end.character as u64))
            ==> target_of(args, TargetKind::Selection) == Ok::<TargetView, McpErrorView>(
            TargetView::Selection { file, range: Range { start, end } },
        ),
{
}

/// Whether a call gives a field as its schema describes it: a text for a string,
/// and a number that fits for an integer.
pub open spec fn gives_as_described(args: JsonView, key: Seq<char>, schema: JsonView) -> bool {
    &&& args.get(key) is Some
    &&& schema.get_text("type"@) == Some("string"@) ==> args.get(key).unwrap().text() is Some
    &&& schema.get_text("type"@) == Some("integer"@) ==> (args.get(key).unwrap().unsigned()
        matches Some(n) && n <= u32::MAX)
}

/// A call that gives every field that its tool requires, as the schema describes
/// it, is understood. One that leaves such a field out is refused: for want of the
/// project, or for want of the target, and the refusal names the field.
pub proof fn schemas_say_which_calls_are_understood(args: JsonView, kind: TargetKind, i: int)
    ensures
        (forall|j: int|
            0 <= j < required_fields(kind).len() ==> gives_as_described(
                args,
                (#[trigger] required_fields(kind)[j])->Text_0,
                json::lookup(envelope_fields(kind), required_fields(kind)[j]->Text_0).unwrap(),
            )) ==> target_of(args, kind) is Ok && args.get_text("project"@) is Some,
        0 <= i < required_fields(kind).len() && args.get(required_fields(kind)[i]->Text_0) is None
            ==> target_of(args, kind) is Err || args.get_text("project"@) is None,
        target_of(args, kind) matches Err(McpErrorView::InvalidParams(why)) ==> exists|j: int|
            0 <= j < required_fields(kind).len() && text::contains_text(
                why,
                (#[trigger] required_fields(kind)[j])->Text_0,
            ),
{
    broadcast use json::lemma_lookup_of_pushed;

    reveal_strlit("project");
    reveal_strlit("workspace");
    reveal_strlit("file");
    reveal_strlit("line");
    reveal_strlit("character");
    reveal_strlit("start_line");
    reveal_strlit("start_character");
    reveal_strlit("end_line");
    reveal_strlit("end_character");
    reveal_strlit("dry_run");
    assert("project"@.len() == 7);
    assert("workspace"@.len() == 9);
    assert("file"@.len() == 4);
    assert("line"@.len() == 4);
    assert("character"@.len() == 9);
    assert("start_line"@.len() == 10);
    assert("start_character"@.len() == 15);
    assert("end_line"@.len() == 8);
    assert("end_character"@.len() == 13);
    assert("dry_run"@.len() == 7);
    assert("project"@[0] != "dry_run"@[0]);
    assert("workspace"@[0] != "character"@[0]);
    assert("file"@[0] != "line"@[0]);
    reveal_strlit("type");
    reveal_strlit("minimum");
    reveal_strlit("description");
    reveal_strlit("default");
    reveal_strlit("properties");
    reveal_strlit("required");
    assert("type"@.len() == 4);
    assert("minimum"@.len() == 7);
    assert("description"@.len() == 11);
    assert("default"@.len() == 7);
    assert("properties"@.len() == 10);
    assert("required"@.len() == 8);
    assert("minimum"@[0] != "default"@[0]);
    reveal_strlit("string");
    reveal_strlit("integer");
    assert("string"@.len() == 6);
    assert("integer"@.len() == 7);
    let wanted = required_fields(kind);
    if forall|j: int|
        0 <= j < wanted.len() ==> gives_as_described(
            args,
            (#[trigger] wanted[j])->Text_0,
            json::lookup(envelope_fields(kind), wanted[j]->Text_0).unwrap(),
        ) {
        let fields = envelope_fields(kind);
        assert(wanted[0] == JsonView::Text("project"@));
        assert(gives_as_described(args, "project"@, json::lookup(fields, "project"@).unwrap()));
        match kind {
            TargetKind::Position => {
                assert(wanted[1] == JsonView::Text("file"@));
                assert(wanted[2] == JsonView::Text("line"@));
                assert(wanted[3] == JsonView::Text("character"@));
                assert(gives_as_described(args, "file"@, json::lookup(fields, "file"@).unwrap()));
                assert(gives_as_described(args, "line"@, json::lookup(fields, "line"@).unwrap()));
                assert(gives_as_described(
                    args,
                    "character"@,
                    json::lookup(fields, "character"@).unwrap(),
                ));
            },
            TargetKind::Selection => {
                assert(wanted[1] == JsonView::Text("file"@));
                assert(wanted[2] == JsonView::Text("start_line"@));
                assert(wanted[3] == JsonView::Text("start_character"@));
                assert(wanted[4] == JsonView::Text("end_line"@));
                assert(wanted[5] == JsonView::Text("end_character"@));
                assert(gives_as_described(args, "file"@, json::lookup(fields, "file"@).unwrap()));
                assert(gives_as_described(
                    args,
                    "start_line"@,
                    json::lookup(fields, "start_line"@).unwrap(),
                ));
                assert(gives_as_described(
                    args,
                    "start_character"@,
                    json::lookup(fields, "start_character"@).unwrap(),
                ));
                assert(gives_as_described(
                    args,
                    "end_line"@,
                    json::lookup(fields, "end_line"@).unwrap(),
                ));
                assert(gives_as_described(
                    args,
                    "end_character"@,
                    json::lookup(fields, "end_character"@).unwrap(),
                ));
            },
            TargetKind::File => {
                assert(wanted[1] == JsonView::Text("file"@));
                assert(gives_as_described(args, "file"@, json::lookup(fields, "file"@).unwrap()));
            },
            TargetKind::Project => {},
        }
    }
    if let Err(McpErrorView::InvalidParams(why)) = target_of(args, kind) {
        let j = lemma_refusal_names_a_field(args, kind, why);
        assert(text::contains_text(why, wanted[j]->Text_0));
    }
}

/// The field that the refusal of a target names.
proof fn lemma_refusal_names_a_field(args: JsonView, kind: TargetKind, why: Seq<char>) -> (j: int)
    requires
        target_of(args, kind) == Err::<TargetView, McpErrorView>(McpErrorView::InvalidParams(why)),
    ensures
        0 <= j < required_fields(kind).len(),
        text::contains_text(why, required_fields(kind)[j]->Text_0),
{
    let wanted = required_fields(kind);
    let text_front = "missing or non-string `"@;
    let count_front = "missing or invalid `"@;
    assert(wanted[1] == JsonView::Text("file"@));
    if args.get_text("file"@) is None {
        text::lemma_stands_between(text_front, "file"@, "`"@);
        1
    } else if kind == TargetKind::Position {
        assert(wanted[2] == JsonView::Text("line"@));
        assert(wanted[3] == JsonView::Text("character"@));
        let back = "` (expected a non-negative integer)"@;
        if required_count(args, "line"@) is Err {
            text::lemma_stands_between(count_front, "line"@, back);
            2
        } else {
            text::lemma_stands_between(count_front, "character"@, back);
            3
        }
    } else {
        assert(wanted[2] == JsonView::Text("start_line"@));
        assert(wanted[3] == JsonView::Text("start_character"@));
        assert(wanted[4] == JsonView::Text("end_line"@));
        assert(wanted[5] == JsonView::Text("end_character"@));
        let back = "` (expected a non-negative integer)"@;
        if required_count(args, "start_line"@) is Err {
            text::lemma_stands_between(count_front, "start_line"@, back);
            2
        } else if required_count(args, "start_character"@) is Err {
            text::lemma_stands_between(count_front, "start_character"@, back);
            3
        } else if required_count(args, "end_line"@) is Err {
            text::lemma_stands_between(count_front, "end_line"@, back);
            4
        } else {
            text::lemma_stands_between(count_front, "end_character"@, back);
            5
        }
    }
}

/// What is taken out of a call is what tools describe besides the parameters of
/// their operations: the fields of the envelope, and `dry_run`.
pub proof fn the_envelope_is_what_tools_add(kind: TargetKind, key: Seq<char>)
    ensures
        has_key(envelope_fields(kind), key) ==> envelope_key(key),
        envelope_key("dry_run"@),
        envelope_key(key) && key != "dry_run"@ ==> has_key(
            envelope_fields(TargetKind::Position),
            key,
        ) || has_key(envelope_fields(TargetKind::Selection), key),
{
    let a = envelope_fields(TargetKind::Position);
    let b = envelope_fields(TargetKind::Selection);
    assert(a[0].0 == "project"@ && a[1].0 == "workspace"@ && a[2].0 == "file"@ && a[3].0 == "line"@
        && a[4].0 == "character"@);
    assert(b[3].0 == "start_line"@ && b[4].0 == "start_character"@ && b[5].0 == "end_line"@
        && b[6].0 == "end_character"@);
}

/// The members of a second list win over those of a first.
proof fn lemma_lookup_merged(
    members: Seq<(Seq<char>, JsonView)>,
    more: Seq<(Seq<char>, JsonView)>,
    key: Seq<char>,
)
    requires
        json::distinct(more),
    ensures
        json::lookup(merged(members, more), key) == match json::lookup(more, key) {
            Some(v) => Some(v),
            None => json::lookup(members, key),
        },
    decreases more.len(),
{
    if more.len() > 0 {
        let front = more.drop_last();
        lemma_lookup_merged(members, front, key);
        json::members_are_given_and_taken(merged(members, front), more.last().0, more.last().1, key);
        assert(more =~= front.push(more.last()));
        json::lemma_lookup_pushed(front, more.last(), key);
        if more.last().0 == key {
            lemma_absent(front, key);
        }
    }
}

/// A key that no member has is not found.
proof fn lemma_absent(members: Seq<(Seq<char>, JsonView)>, key: Seq<char>)
    requires
        forall|i: int| 0 <= i < members.len() ==> (#[trigger] members[i]).0 != key,
    ensures
        json::lookup(members, key) is None,
    decreases members.len(),
{
    if members.len() > 0 {
        assert(members[0].0 != key);
        assert forall|i: int| 0 <= i < members.skip(1).len() implies (#[trigger] members.skip(
            1,
        )[i]).0 != key by {
            assert(members.skip(1)[i] == members[i + 1]);
        }
        lemma_absent(members.skip(1), key);
    }
}

/// The schema of a tool describes each parameter as its operation does, and the
/// rest of the envelope as for every tool of its target. It requires what the
/// envelope and the operation require, and nothing else. It says of `dry_run` what
/// a call gets that does not give it. The description of a tool begins with that of
/// its operation.
pub proof fn tools_are_described_by_their_operations(
    d: DescriptorView,
    key: Seq<char>,
    args: JsonView,
)
    requires
        json::distinct(own_fields(d.params_schema)),
    ensures
        input_schema(d).get_text("type"@) == Some("object"@),
        key != "dry_run"@ || d.kind == OperationKind::Query ==> json::inner(
            input_schema(d).get("properties"@),
            key,
        ) == match json::lookup(own_fields(d.params_schema), key) {
            Some(v) => Some(v),
            None => json::lookup(envelope_fields(d.target), key),
        },
        input_schema(d).get("required"@) matches Some(JsonView::Array(names)) && (forall|name:
            JsonView|
            names.contains(name) <==> required_fields(d.target).contains(name) || own_required(
                d.params_schema,
            ).contains(name)),
        d.kind == OperationKind::Edit && args.get("dry_run"@) is None ==> json::inner(
            json::inner(input_schema(d).get("properties"@), "dry_run"@),
            "default"@,
        ) == Some(JsonView::Bool(wants_preview(args))),
        text::begins_with(tool_description(d), d.description),
{
    broadcast use json::lemma_lookup_of_pushed;

    reveal_strlit("type");
    reveal_strlit("minimum");
    reveal_strlit("description");
    reveal_strlit("default");
    reveal_strlit("properties");
    reveal_strlit("required");
    assert("type"@.len() == 4);
    assert("minimum"@.len() == 7);
    assert("description"@.len() == 11);
    assert("default"@.len() == 7);
    assert("properties"@.len() == 10);
    assert("required"@.len() == 8);
    assert("minimum"@[0] != "default"@[0]);
    let fields = merged(envelope_fields(d.target), own_fields(d.params_schema));
    lemma_lookup_merged(envelope_fields(d.target), own_fields(d.params_schema), key);
    json::members_are_given_and_taken(fields, "dry_run"@, dry_run_json(), key);
    json::members_are_given_and_taken(fields, "dry_run"@, dry_run_json(), "dry_run"@);
    let a = required_fields(d.target);
    let b = own_required(d.params_schema);
    assert forall|name: JsonView| (a + b).contains(name) <==> a.contains(name) || b.contains(
        name,
    ) by {
        if a.contains(name) {
            let i = a.index_of(name);
            assert((a + b)[i] == name);
        }
        if b.contains(name) {
            let i = b.index_of(name);
            assert((a + b)[a.len() + i] == name);
        }
    }
    assert(tool_description(d).subrange(0, d.description.len() as int) =~= d.description);
}

/// The fields of a call that the envelope takes: the working copy is the one that
/// it names, where it names one, and a preview is what it says about `dry_run`.
pub proof fn calls_say_where_and_whether(args: JsonView, workspace: Seq<char>, preview: bool)
    ensures
        args.get("workspace"@) == Some(JsonView::Text(workspace)) && workspace.len() > 0
            ==> named_workspace(args) == Some(workspace),
        args.get("workspace"@) is None || args.get_text("workspace"@) == Some(Seq::<char>::empty())
            ==> named_workspace(args) is None,
        args.get("dry_run"@) == Some(JsonView::Bool(preview)) ==> wants_preview(args) == preview,
        args.get("dry_run"@) != Some(JsonView::Bool(false)) ==> wants_preview(args),
{
}

} // verus!

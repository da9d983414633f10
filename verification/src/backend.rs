//! Running an operation on a language server.
//!
//! A run is a dialogue. It asks for a file to be opened or for a request to be
//! sent, takes in the reply, and ends with the edit or the locations that the
//! server gave, or with an error. The server is talked to by the caller.
use vstd::prelude::*;

use crate::edit::{Position, Range};
use crate::error::{Error, ErrorView};
use crate::json;
use crate::json::{Items, Json, JsonView, Members};
use crate::language::Language;
use crate::operation::{
    DescriptorView, OperationDescriptor, OperationKind, OperationRequest, Target, TargetKind,
    TargetView,
};
use crate::path::PathBuf;
use crate::text;
use crate::text::{cat2, has_prefix, has_text, lower_ascii, same_text, to_lowercase};

verus! {

// ---------------------------------------------------------------------------
// Payloads
// ---------------------------------------------------------------------------

/// A position.
pub open spec fn position_json(p: Position) -> JsonView {
    JsonView::Object(
        json::no_members().push(("line"@, json::unsigned_json(p.line as u64))).push(
            ("character"@, json::unsigned_json(p.character as u64)),
        ),
    )
}

/// A range.
pub open spec fn range_json(start: Position, end: Position) -> JsonView {
    JsonView::Object(
        json::no_members().push(("start"@, position_json(start))).push(
            ("end"@, position_json(end)),
        ),
    )
}

/// A document.
pub open spec fn document_json(uri: Seq<char>) -> JsonView {
    JsonView::Object(json::no_members().push(("uri"@, JsonView::Text(uri))))
}

/// Parameters of `textDocument/rename`.
pub open spec fn rename_json(uri: Seq<char>, position: Position, new_name: Seq<char>) -> JsonView {
    JsonView::Object(
        json::no_members().push(("textDocument"@, document_json(uri))).push(
            ("position"@, position_json(position)),
        ).push(("newName"@, JsonView::Text(new_name))),
    )
}

/// Parameters of `textDocument/references`.
pub open spec fn references_json(
    uri: Seq<char>,
    position: Position,
    include_declaration: bool,
) -> JsonView {
    JsonView::Object(
        json::no_members().push(("textDocument"@, document_json(uri))).push(
            ("position"@, position_json(position)),
        ).push(
            (
                "context"@,
                JsonView::Object(
                    json::no_members().push(
                        ("includeDeclaration"@, JsonView::Bool(include_declaration)),
                    ),
                ),
            ),
        ),
    )
}

/// Parameters of `textDocument/codeAction`: actions of one kind, without
/// diagnostics.
pub open spec fn code_action_json(uri: Seq<char>, range: JsonView, only: Seq<char>) -> JsonView {
    JsonView::Object(
        json::no_members().push(("textDocument"@, document_json(uri))).push(
            ("range"@, range),
        ).push(
            (
                "context"@,
                JsonView::Object(
                    json::no_members().push(
                        ("diagnostics"@, JsonView::Array(json::no_items())),
                    ).push(
                        ("only"@, JsonView::Array(json::no_items().push(JsonView::Text(only)))),
                    ),
                ),
            ),
        ),
    )
}

/// Parameters of `workspace/executeCommand`.
pub open spec fn command_json(command: Seq<char>, arguments: JsonView) -> JsonView {
    JsonView::Object(
        json::no_members().push(("command"@, JsonView::Text(command))).push(
            ("arguments"@, arguments),
        ),
    )
}

/// A position.
pub fn position_value(p: Position) -> (r: Json)
    ensures
        r@ == position_json(p),
{
    Members::new().with("line", Json::unsigned(p.line as u64)).with(
        "character",
        Json::unsigned(p.character as u64),
    ).done()
}

/// A range.
pub fn range_value(start: Position, end: Position) -> (r: Json)
    ensures
        r@ == range_json(start, end),
{
    Members::new().with("start", position_value(start)).with("end", position_value(end)).done()
}

/// A document.
pub fn document_value(uri: &str) -> (r: Json)
    ensures
        r@ == document_json(uri@),
{
    Members::new().with("uri", Json::text(uri)).done()
}

/// Parameters of `textDocument/rename`.
pub fn rename_params(uri: &str, position: Position, new_name: &str) -> (r: Json)
    ensures
        r@ == rename_json(uri@, position, new_name@),
{
    Members::new().with("textDocument", document_value(uri)).with(
        "position",
        position_value(position),
    ).with("newName", Json::text(new_name)).done()
}

/// Parameters of `textDocument/references`.
pub fn references_params(uri: &str, position: Position, include_declaration: bool) -> (r: Json)
    ensures
        r@ == references_json(uri@, position, include_declaration),
{
    Members::new().with("textDocument", document_value(uri)).with(
        "position",
        position_value(position),
    ).with(
        "context",
        Members::new().with("includeDeclaration", Json::Bool(include_declaration)).done(),
    ).done()
}

/// Parameters of `textDocument/codeAction`.
pub fn code_action_params(uri: &str, range: Json, only: &str) -> (r: Json)
    ensures
        r@ == code_action_json(uri@, range@, only@),
{
    Members::new().with("textDocument", document_value(uri)).with("range", range).with(
        "context",
        Members::new().with("diagnostics", Items::new().done()).with(
            "only",
            Items::new().with(Json::text(only)).done(),
        ).done(),
    ).done()
}

/// Parameters of `workspace/executeCommand`.
pub fn command_params(command: &str, arguments: Json) -> (r: Json)
    ensures
        r@ == command_json(command@, arguments@),
{
    Members::new().with("command", Json::text(command)).with("arguments", arguments).done()
}

// ---------------------------------------------------------------------------
// Targets
// ---------------------------------------------------------------------------

/// What an operation on a position says of another target.
pub open spec fn wants_position() -> Seq<char> {
    "this operation expects a position (file, line, character)"@
}

/// The file and the position of a target.
pub fn position_target(target: &Target) -> (r: Result<(PathBuf, Position), Error>)
    ensures
        match (r, target@) {
            (Ok((f, p)), TargetView::Position { file, position }) => f@ == file && p == position,
            (Err(e), TargetView::Position { .. }) => false,
            (Err(e), _) => e@ == ErrorView::InvalidTarget(wants_position()),
            (Ok(_), _) => false,
        },
{
    match target {
        Target::Position { file, position } => Ok((file.clone(), *position)),
        _ => Err(
            Error::InvalidTarget(
                "this operation expects a position (file, line, character)".to_owned(),
            ),
        ),
    }
}

/// The range that code actions are asked for: a selection as it is, a position as
/// an empty range, and a file as its very start.
pub open spec fn action_range(target: TargetView) -> Option<JsonView> {
    let origin = Position { line: 0, character: 0 };
    match target {
        TargetView::Selection { range, .. } => Some(range_json(range.start, range.end)),
        TargetView::Position { position, .. } => Some(range_json(position, position)),
        TargetView::File { .. } => Some(range_json(origin, origin)),
        TargetView::Project => None,
    }
}

/// The range that code actions are asked for.
pub fn code_action_range(target: &Target) -> (r: Result<Json, Error>)
    ensures
        match (r, action_range(target@)) {
            (Ok(v), Some(want)) => v@ == want,
            (Err(e), None) => e@ == ErrorView::InvalidTarget(
                "this operation needs a file, selection, or position"@,
            ),
            _ => false,
        },
{
    match target {
        Target::Selection { range, .. } => Ok(range_value(range.start, range.end)),
        Target::Position { position, .. } => Ok(range_value(*position, *position)),
        Target::File { .. } => {
            let origin = Position { line: 0, character: 0 };
            Ok(range_value(origin, origin))
        },
        Target::Project => Err(
            Error::InvalidTarget("this operation needs a file, selection, or position".to_owned()),
        ),
    }
}

// ---------------------------------------------------------------------------
// Choosing a code action
// ---------------------------------------------------------------------------

/// How one of several code actions of a kind is chosen.
#[derive(Debug, Clone, PartialEq, Eq)]
pub enum ChoiceRule {
    /// The kind has to be the one asked for; the title has to contain the text, if
    /// one is given, in any ASCII case; and an action on a single target is
    /// preferred to one on all occurrences.
    SingleTarget {
        /// Text that the title has to contain.
        prefer_title: Option<String>,
    },
    /// The kind has to be the one asked for, and the lower-cased title has to
    /// contain the keyword, if one is given.
    Keyword {
        /// Keyword that the title has to contain.
        keyword: Option<String>,
    },
    /// The kind has to start with the one asked for. The edit may come as a
    /// command.
    SubKind,
}

/// What a [`ChoiceRule`] says.
pub enum ChoiceRuleView {
    SingleTarget { prefer_title: Option<Seq<char>> },
    Keyword { keyword: Option<Seq<char>> },
    SubKind,
}

impl View for ChoiceRule {
    type V = ChoiceRuleView;

    open spec fn view(&self) -> ChoiceRuleView {
        match self {
            ChoiceRule::SingleTarget { prefer_title } => ChoiceRuleView::SingleTarget {
                prefer_title: text::optional(*prefer_title),
            },
            ChoiceRule::Keyword { keyword } => ChoiceRuleView::Keyword {
                keyword: text::optional(*keyword),
            },
            ChoiceRule::SubKind => ChoiceRuleView::SubKind,
        }
    }
}

/// Whether an action is one that the rule admits.
pub open spec fn admitted(rule: ChoiceRuleView, kind: Seq<char>, action: JsonView) -> bool {
    let title = action.get_text("title"@);
    match action.get_text("kind"@) {
        None => false,
        Some(k) => match rule {
            ChoiceRuleView::SingleTarget { prefer_title } => k == kind && match prefer_title {
                None => true,
                Some(want) => title matches Some(t) && text::contains_text(
                    text::ascii_lowercase(t),
                    text::ascii_lowercase(want),
                ),
            },
            ChoiceRuleView::Keyword { keyword } => k == kind && match keyword {
                None => true,
                Some(want) => title matches Some(t) && text::contains_text(
                    text::lowercase(t),
                    want,
                ),
            },
            ChoiceRuleView::SubKind => text::begins_with(k, kind),
        },
    }
}

/// Whether an action is one that the rule would rather not take: it changes all
/// occurrences where another changes one.
pub open spec fn second_choice(rule: ChoiceRuleView, action: JsonView) -> bool {
    &&& rule is SingleTarget
    &&& action.get_text("title"@) matches Some(t) && text::contains_text(
        text::ascii_lowercase(t),
        "occurrence"@,
    )
}

/// The first of the actions that the rule admits and, unless `any`, would rather
/// take.
pub open spec fn first_admitted(
    rule: ChoiceRuleView,
    kind: Seq<char>,
    actions: Seq<JsonView>,
    any: bool,
) -> Option<int>
    decreases actions.len(),
{
    if actions.len() == 0 {
        None
    } else {
        match first_admitted(rule, kind, actions.drop_last(), any) {
            Some(i) => Some(i),
            None => if admitted(rule, kind, actions.last()) && (any || !second_choice(
                rule,
                actions.last(),
            )) {
                Some(actions.len() - 1)
            } else {
                None
            },
        }
    }
}

/// The action that the rule takes: the first that it would rather take, else the
/// first that it admits.
pub open spec fn chosen_action(
    rule: ChoiceRuleView,
    kind: Seq<char>,
    actions: Seq<JsonView>,
) -> Option<JsonView> {
    match first_admitted(rule, kind, actions, false) {
        Some(i) => Some(actions[i]),
        None => match first_admitted(rule, kind, actions, true) {
            Some(i) => Some(actions[i]),
            None => None,
        },
    }
}

/// Whether an action is one that the rule admits.
fn is_admitted(rule: &ChoiceRule, kind: &str, action: &Json) -> (r: bool)
    ensures
        r == admitted(rule@, kind@, action@),
{
    let k = match action.get_str("kind") {
        Some(k) => k,
        None => {
            return false;
        },
    };
    match rule {
        ChoiceRule::SingleTarget { prefer_title } => {
            if !same_text(k, kind) {
                return false;
            }
            match prefer_title {
                None => true,
                Some(want) => match action.get_str("title") {
                    Some(t) => has_text(
                        lower_ascii(t).as_str(),
                        lower_ascii(want.as_str()).as_str(),
                    ),
                    None => false,
                },
            }
        },
        ChoiceRule::Keyword { keyword } => {
            if !same_text(k, kind) {
                return false;
            }
            match keyword {
                None => true,
                Some(want) => match action.get_str("title") {
                    Some(t) => has_text(to_lowercase(t).as_str(), want.as_str()),
                    None => false,
                },
            }
        },
        ChoiceRule::SubKind => has_prefix(k, kind),
    }
}

/// Whether an action is one that the rule would rather not take.
fn is_second_choice(rule: &ChoiceRule, action: &Json) -> (r: bool)
    ensures
        r == second_choice(rule@, action@),
{
    match rule {
        ChoiceRule::SingleTarget { .. } => match action.get_str("title") {
            Some(t) => has_text(lower_ascii(t).as_str(), "occurrence"),
            None => false,
        },
        _ => false,
    }
}

proof fn lemma_first_admitted_stays(
    rule: ChoiceRuleView,
    kind: Seq<char>,
    actions: Seq<JsonView>,
    any: bool,
    n: int,
)
    requires
        0 <= n <= actions.len(),
        first_admitted(rule, kind, actions.take(n), any) is Some,
    ensures
        first_admitted(rule, kind, actions, any) == first_admitted(
            rule,
            kind,
            actions.take(n),
            any,
        ),
    decreases actions.len(),
{
    if n == actions.len() {
        assert(actions.take(n) =~= actions);
    } else {
        assert(actions.drop_last().take(n) =~= actions.take(n));
        lemma_first_admitted_stays(rule, kind, actions.drop_last(), any, n);
    }
}

/// The place of the first action that the rule admits and, unless `any`, would
/// rather take.
fn find_admitted(rule: &ChoiceRule, kind: &str, actions: &Vec<Json>, any: bool) -> (r: Option<usize>)
    ensures
        match (r, first_admitted(rule@, kind@, json::json_views(actions@), any)) {
            (Some(i), Some(k)) => i == k && i < actions@.len(),
            (None, None) => true,
            _ => false,
        },
{
    let ghost all = json::json_views(actions@);
    let mut i: usize = 0;
    assert(all.take(0) =~= seq![]);
    while i < actions.len()
        invariant
            i <= actions@.len(),
            all == json::json_views(actions@),
            first_admitted(rule@, kind@, all.take(i as int), any) is None,
        decreases actions@.len() - i,
    {
        proof {
            let now = all.take(i + 1);
            assert(now.drop_last() =~= all.take(i as int));
            assert(now.last() == actions@[i as int]@);
        }
        if is_admitted(rule, kind, &actions[i]) && (any || !is_second_choice(rule, &actions[i])) {
            proof {
                lemma_first_admitted_stays(rule@, kind@, all, any, i + 1);
            }
            return Some(i);
        }
        i += 1;
    }
    assert(all.take(i as int) =~= all);
    None
}

/// The actions of an answer; none where it is no list.
pub open spec fn listed_actions(answer: JsonView) -> Seq<JsonView> {
    match answer.items() {
        Some(v) => v,
        None => seq![],
    }
}

/// What an operation says where it cannot be done.
pub open spec fn not_available(id: Seq<char>) -> ErrorView {
    ErrorView::OperationNotAvailable(id + " is not available at this location"@)
}

/// The action that the rule takes of those in an answer.
pub fn choose_action(rule: &ChoiceRule, kind: &str, id: &str, answer: &Json) -> (r: Result<
    Json,
    Error,
>)
    ensures
        match (r, chosen_action(rule@, kind@, listed_actions(answer@))) {
            (Ok(a), Some(want)) => a@ == want,
            (Err(e), None) => e@ == not_available(id@),
            _ => false,
        },
{
    if let Some(actions) = answer.as_array() {
        if let Some(i) = find_admitted(rule, kind, actions, false) {
            return Ok(actions[i].copy());
        }
        if let Some(i) = find_admitted(rule, kind, actions, true) {
            return Ok(actions[i].copy());
        }
    } else {
        assert(listed_actions(answer@) =~= seq![]);
    }
    Err(Error::OperationNotAvailable(cat2(id, " is not available at this location")))
}

// ---------------------------------------------------------------------------
// Runs
// ---------------------------------------------------------------------------

/// What the caller is to do for a run.
#[derive(Debug)]
pub enum Action {
    /// Have the project's sources opened, and open this file.
    Open {
        /// The file.
        file: PathBuf,
    },
    /// Send a request.
    Request {
        /// Its method.
        method: String,
        /// Its parameters.
        params: Json,
    },
    /// Send a request, and wait for the edit that the server asks to have applied.
    Capture {
        /// Its method.
        method: String,
        /// Its parameters.
        params: Json,
    },
    /// The run has ended with this edit of the server.
    Edit(Json),
    /// The run has ended without an edit.
    NoEdit,
    /// The run has ended with these locations of the server.
    Usages(Json),
    /// The run has failed.
    Fail(Error),
}

/// What an [`Action`] says.
pub enum ActionView {
    Open { file: Seq<char> },
    Request { method: Seq<char>, params: JsonView },
    Capture { method: Seq<char>, params: JsonView },
    Edit(JsonView),
    NoEdit,
    Usages(JsonView),
    Fail(ErrorView),
}

impl View for Action {
    type V = ActionView;

    open spec fn view(&self) -> ActionView {
        match self {
            Action::Open { file } => ActionView::Open { file: file@ },
            Action::Request { method, params } => ActionView::Request {
                method: method@,
                params: params@,
            },
            Action::Capture { method, params } => ActionView::Capture {
                method: method@,
                params: params@,
            },
            Action::Edit(v) => ActionView::Edit(v@),
            Action::NoEdit => ActionView::NoEdit,
            Action::Usages(v) => ActionView::Usages(v@),
            Action::Fail(e) => ActionView::Fail(e@),
        }
    }
}

/// What came of an action.
#[derive(Debug)]
pub enum Reply {
    /// The file is open.
    Opened {
        /// Its URI.
        uri: String,
    },
    /// The answer to a request.
    Answer(Json),
    /// The edit that the server asked to have applied, if it did.
    Captured(Option<Json>),
    /// The action failed; the text says how.
    Failed(String),
}

/// What a [`Reply`] says.
pub enum ReplyView {
    Opened { uri: Seq<char> },
    Answer(JsonView),
    Captured(Option<JsonView>),
    Failed(Seq<char>),
}

impl View for Reply {
    type V = ReplyView;

    open spec fn view(&self) -> ReplyView {
        match self {
            Reply::Opened { uri } => ReplyView::Opened { uri: uri@ },
            Reply::Answer(v) => ReplyView::Answer(v@),
            Reply::Captured(Some(v)) => ReplyView::Captured(Some(v@)),
            Reply::Captured(None) => ReplyView::Captured(None),
            Reply::Failed(s) => ReplyView::Failed(s@),
        }
    }
}

/// How far a run has come.
#[derive(Debug)]
pub enum Run {
    /// A rename; its file is being opened.
    Rename {
        /// Where the symbol stands.
        position: Position,
        /// Its new name.
        new_name: String,
    },
    /// A search for usages; its file is being opened.
    FindUsages {
        /// Where the symbol stands.
        position: Position,
        /// Whether the declaration counts.
        include_declaration: bool,
    },
    /// A code action; its file is being opened.
    ListActions {
        /// Id of the operation.
        id: String,
        /// Kind of the action.
        kind: String,
        /// How the action is chosen.
        rule: ChoiceRule,
        /// What the action is for.
        range: Json,
    },
    /// A code action; the actions have been asked for.
    ChooseAction {
        /// Id of the operation.
        id: String,
        /// Kind of the action.
        kind: String,
        /// How the action is chosen.
        rule: ChoiceRule,
    },
    /// A code action that is being completed by the server.
    ResolveAction {
        /// How the action was chosen.
        rule: ChoiceRule,
    },
    /// A change of signature; its file is being opened.
    Signature {
        /// Where the method stands.
        position: Position,
        /// What is asked for.
        params: Json,
    },
    /// A change of signature; the signature has been asked for.
    SignatureInfo {
        /// What was asked about.
        context: Json,
        /// What is asked for.
        params: Json,
    },
    /// A change of signature; the edit has been asked for.
    SignatureEdit,
    /// The answer is the edit.
    AwaitEdit,
    /// The answer is the list of locations.
    AwaitLocations,
    /// The server is expected to ask for the edit to be applied.
    AwaitCapture,
    /// The run has ended.
    Over,
}

/// What a [`Run`] says.
pub enum RunView {
    Rename { position: Position, new_name: Seq<char> },
    FindUsages { position: Position, include_declaration: bool },
    ListActions { id: Seq<char>, kind: Seq<char>, rule: ChoiceRuleView, range: JsonView },
    ChooseAction { id: Seq<char>, kind: Seq<char>, rule: ChoiceRuleView },
    ResolveAction { rule: ChoiceRuleView },
    Signature { position: Position, params: JsonView },
    SignatureInfo { context: JsonView, params: JsonView },
    SignatureEdit,
    AwaitEdit,
    AwaitLocations,
    AwaitCapture,
    Over,
}

impl View for Run {
    type V = RunView;

    open spec fn view(&self) -> RunView {
        match self {
            Run::Rename { position, new_name } => RunView::Rename {
                position: *position,
                new_name: new_name@,
            },
            Run::FindUsages { position, include_declaration } => RunView::FindUsages {
                position: *position,
                include_declaration: *include_declaration,
            },
            Run::ListActions { id, kind, rule, range } => RunView::ListActions {
                id: id@,
                kind: kind@,
                rule: rule@,
                range: range@,
            },
            Run::ChooseAction { id, kind, rule } => RunView::ChooseAction {
                id: id@,
                kind: kind@,
                rule: rule@,
            },
            Run::ResolveAction { rule } => RunView::ResolveAction { rule: rule@ },
            Run::Signature { position, params } => RunView::Signature {
                position: *position,
                params: params@,
            },
            Run::SignatureInfo { context, params } => RunView::SignatureInfo {
                context: context@,
                params: params@,
            },
            Run::SignatureEdit => RunView::SignatureEdit,
            Run::AwaitEdit => RunView::AwaitEdit,
            Run::AwaitLocations => RunView::AwaitLocations,
            Run::AwaitCapture => RunView::AwaitCapture,
            Run::Over => RunView::Over,
        }
    }
}

/// The start of a run, or the failure of one that cannot start.
pub type Started = (RunView, ActionView);

/// A run that has failed.
pub open spec fn failed(e: ErrorView) -> Started {
    (RunView::Over, ActionView::Fail(e))
}

// Starting ------------------------------------------------------------------

/// The new name that a rename asks for: a text that is not empty.
pub open spec fn wanted_name(params: JsonView) -> Option<Seq<char>> {
    match params.get_text("new_name"@) {
        Some(s) => if s.len() > 0 {
            Some(s)
        } else {
            None
        },
        None => None,
    }
}

/// The start of a rename.
pub open spec fn rename_started(target: TargetView, params: JsonView) -> Started {
    match target {
        TargetView::Position { file, position } => match wanted_name(params) {
            Some(new_name) => (
                RunView::Rename { position, new_name },
                ActionView::Open { file },
            ),
            None => failed(ErrorView::InvalidTarget("`new_name` is required"@)),
        },
        _ => failed(ErrorView::InvalidTarget(wants_position())),
    }
}

/// Starts a rename.
pub fn start_rename(req: &OperationRequest) -> (r: (Run, Action))
    ensures
        (r.0@, r.1@) == rename_started(req.target@, req.params@),
{
    let (file, position) = match position_target(&req.target) {
        Ok(found) => found,
        Err(e) => {
            return (Run::Over, Action::Fail(e));
        },
    };
    if let Some(name) = req.params.get_str("new_name") {
        if !name.is_empty() {
            return (Run::Rename { position, new_name: name.to_owned() }, Action::Open { file });
        }
    }
    (Run::Over, Action::Fail(Error::InvalidTarget("`new_name` is required".to_owned())))
}

/// The start of a search for usages. The declaration counts unless it is said
/// otherwise.
pub open spec fn usages_started(target: TargetView, params: JsonView) -> Started {
    match target {
        TargetView::Position { file, position } => (
            RunView::FindUsages {
                position,
                include_declaration: match params.get("include_declaration"@) {
                    Some(v) => match v.truth() {
                        Some(b) => b,
                        None => true,
                    },
                    None => true,
                },
            },
            ActionView::Open { file },
        ),
        _ => failed(ErrorView::InvalidTarget(wants_position())),
    }
}

/// Starts a search for usages.
pub fn start_find_usages(req: &OperationRequest) -> (r: (Run, Action))
    ensures
        (r.0@, r.1@) == usages_started(req.target@, req.params@),
{
    let (file, position) = match position_target(&req.target) {
        Ok(found) => found,
        Err(e) => {
            return (Run::Over, Action::Fail(e));
        },
    };
    let include_declaration = match req.params.get("include_declaration") {
        Some(v) => match v.as_bool() {
            Some(b) => b,
            None => true,
        },
        None => true,
    };
    (Run::FindUsages { position, include_declaration }, Action::Open { file })
}

/// The start of a code action.
pub open spec fn action_started(
    id: Seq<char>,
    kind: Seq<char>,
    rule: ChoiceRuleView,
    target: TargetView,
) -> Started {
    match (target.file(), action_range(target)) {
        (None, _) => failed(ErrorView::InvalidTarget("a file is required"@)),
        (Some(_), None) => failed(
            ErrorView::InvalidTarget("this operation needs a file, selection, or position"@),
        ),
        (Some(file), Some(range)) => (
            RunView::ListActions { id, kind, rule, range },
            ActionView::Open { file },
        ),
    }
}

/// Starts a code action.
pub fn start_code_action(
    id: &str,
    kind: &str,
    rule: ChoiceRule,
    req: &OperationRequest,
) -> (r: (Run, Action))
    ensures
        (r.0@, r.1@) == action_started(id@, kind@, rule@, req.target@),
{
    let file = match req.target.file() {
        Some(file) => file.clone(),
        None => {
            return (Run::Over, Action::Fail(Error::InvalidTarget("a file is required".to_owned())));
        },
    };
    match code_action_range(&req.target) {
        Ok(range) => (
            Run::ListActions { id: id.to_owned(), kind: kind.to_owned(), rule, range },
            Action::Open { file },
        ),
        Err(e) => (Run::Over, Action::Fail(e)),
    }
}

/// The start of a change of signature.
pub open spec fn signature_started(target: TargetView, params: JsonView) -> Started {
    match target {
        TargetView::Position { file, position } => (
            RunView::Signature { position, params },
            ActionView::Open { file },
        ),
        _ => failed(ErrorView::InvalidTarget(wants_position())),
    }
}

/// Starts a change of signature.
pub fn start_change_signature(req: &OperationRequest) -> (r: (Run, Action))
    ensures
        (r.0@, r.1@) == signature_started(req.target@, req.params@),
{
    match position_target(&req.target) {
        Ok((file, position)) => (
            Run::Signature { position, params: req.params.copy() },
            Action::Open { file },
        ),
        Err(e) => (Run::Over, Action::Fail(e)),
    }
}

// Change of signature --------------------------------------------------------

/// A member, or a value in its place.
pub open spec fn member_or(v: JsonView, key: Seq<char>, other: JsonView) -> JsonView {
    match v.get(key) {
        Some(m) => m,
        None => other,
    }
}

/// One parameter in the form that the server expects. A missing index means that
/// the parameter is new.
pub open spec fn parameter_json(item: JsonView) -> JsonView {
    let index = match item.get("original_index"@) {
        Some(v) => match v.integer() {
            Some(n) => n,
            None => -1,
        },
        None => -1,
    };
    JsonView::Object(
        json::no_members().push(("type"@, member_or(item, "type"@, JsonView::Null))).push(
            ("name"@, member_or(item, "name"@, JsonView::Null)),
        ).push(("defaultValue"@, member_or(item, "default_value"@, JsonView::Null))).push(
            ("originalIndex"@, json::integer_json(index)),
        ),
    )
}

/// Parameters in the form that the server expects.
pub open spec fn parameters_json(provided: JsonView) -> JsonView {
    JsonView::Array(listed_actions(provided).map_values(|p: JsonView| parameter_json(p)))
}

/// What a change of signature asks about.
pub open spec fn signature_context(uri: Seq<char>, position: Position) -> JsonView {
    code_action_json(uri, range_json(position, position), "refactor.change.signature"@)
}

/// The request for the current signature.
pub open spec fn signature_info_json(context: JsonView) -> JsonView {
    command_json(
        "henka.mcp.getChangeSignatureInfo"@,
        JsonView::Array(json::no_items().push(context)),
    )
}

/// The value that is asked for, else the current one, else nothing.
pub open spec fn wanted_or_current(
    params: JsonView,
    wanted: Seq<char>,
    info: JsonView,
    current: Seq<char>,
) -> JsonView {
    member_or(params, wanted, member_or(info, current, JsonView::Null))
}

/// The arguments of the change: the method, whether to keep it as a delegate, its
/// name, visibility, return type, parameters and exceptions, and no preview.
pub open spec fn signature_arguments(
    method: JsonView,
    params: JsonView,
    info: JsonView,
) -> JsonView {
    let parameters = match params.get("parameters"@) {
        Some(provided) => parameters_json(provided),
        None => member_or(info, "parameters"@, JsonView::Array(json::no_items())),
    };
    let delegate = match params.get("delegate"@) {
        Some(v) => match v.truth() {
            Some(b) => b,
            None => false,
        },
        None => false,
    };
    JsonView::Array(
        json::no_items().push(method).push(JsonView::Bool(delegate)).push(
            wanted_or_current(params, "name"@, info, "methodName"@),
        ).push(wanted_or_current(params, "modifier"@, info, "modifier"@)).push(
            wanted_or_current(params, "return_type"@, info, "returnType"@),
        ).push(parameters).push(
            member_or(info, "exceptions"@, JsonView::Array(json::no_items())),
        ).push(JsonView::Bool(false)),
    )
}

/// The request for the edit of the change.
pub open spec fn signature_edit_json(
    context: JsonView,
    method: JsonView,
    params: JsonView,
    info: JsonView,
) -> JsonView {
    command_json(
        "henka.mcp.getRefactorEdit"@,
        JsonView::Array(
            json::no_items().push(
                JsonView::Object(
                    json::no_members().push(
                        ("command"@, JsonView::Text("changeSignature"@)),
                    ).push(("context"@, context)).push(
                        ("commandArguments"@, signature_arguments(method, params, info)),
                    ),
                ),
            ),
        ),
    )
}

/// A copy of a member, or a value in its place.
fn copy_member_or(v: &Json, key: &str, other: Json) -> (r: Json)
    ensures
        r@ == member_or(v@, key@, other@),
{
    match v.get(key) {
        Some(m) => m.copy(),
        None => other,
    }
}

/// Parameters in the form that the server expects: `type`, `name`, `defaultValue`
/// and `originalIndex`.
pub fn normalize_parameters(provided: &Json) -> (r: Json)
    ensures
        r@ == parameters_json(provided@),
{
    let ghost want = listed_actions(provided@).map_values(|p: JsonView| parameter_json(p));
    let mut out: Vec<Json> = Vec::new();
    assert(json::json_views(out@) =~= want.take(0));
    if let Some(items) = provided.as_array() {
        let ghost all = json::json_views(items@);
        let mut i: usize = 0;
        while i < items.len()
            invariant
                i <= items@.len(),
                all == json::json_views(items@),
                want == all.map_values(|p: JsonView| parameter_json(p)),
                json::json_views(out@) == want.take(i as int),
            decreases items@.len() - i,
        {
            let item = &items[i];
            let ghost before = json::json_views(out@);
            let index: i64 = match item.get("original_index") {
                Some(v) => match v.as_i64() {
                    Some(n) => n,
                    None => -1,
                },
                None => -1,
            };
            out.push(
                Members::new().with("type", copy_member_or(item, "type", Json::Null)).with(
                    "name",
                    copy_member_or(item, "name", Json::Null),
                ).with("defaultValue", copy_member_or(item, "default_value", Json::Null)).with(
                    "originalIndex",
                    Json::integer(index),
                ).done(),
            );
            proof {
                assert(all[i as int] == item@);
                assert(out@.last()@ == want[i as int]);
                assert(json::json_views(out@) =~= before.push(want[i as int]));
                assert(want.take(i + 1) =~= want.take(i as int).push(want[i as int]));
            }
            i += 1;
        }
        assert(want.take(i as int) =~= want);
    } else {
        assert(want =~= seq![]);
        assert(json::json_views(out@) =~= want);
    }
    Json::list(out)
}

/// The request for the edit of a change of signature.
fn signature_edit_params(context: Json, method: Json, params: &Json, info: &Json) -> (r: Json)
    ensures
        r@ == signature_edit_json(context@, method@, params@, info@),
{
    let name = copy_member_or(params, "name", copy_member_or(info, "methodName", Json::Null));
    let modifier = copy_member_or(params, "modifier", copy_member_or(info, "modifier", Json::Null));
    let return_type = copy_member_or(
        params,
        "return_type",
        copy_member_or(info, "returnType", Json::Null),
    );
    let parameters = match params.get("parameters") {
        Some(provided) => normalize_parameters(provided),
        None => copy_member_or(info, "parameters", Items::new().done()),
    };
    let exceptions = copy_member_or(info, "exceptions", Items::new().done());
    let delegate = match params.get("delegate") {
        Some(v) => match v.as_bool() {
            Some(b) => b,
            None => false,
        },
        None => false,
    };
    let arguments = Items::new().with(method).with(Json::Bool(delegate)).with(name).with(
        modifier,
    ).with(return_type).with(parameters).with(exceptions).with(Json::Bool(false)).done();
    let refactor = Members::new().with("command", Json::text("changeSignature")).with(
        "context",
        context,
    ).with("commandArguments", arguments).done();
    command_params("henka.mcp.getRefactorEdit", Items::new().with(refactor).done())
}

// Going on --------------------------------------------------------------------

/// The run once the current signature is known.
pub open spec fn signature_known(context: JsonView, params: JsonView, info: JsonView) -> Started {
    match info.get_text("errorMessage"@) {
        Some(err) => failed(ErrorView::Backend("change-signature unavailable here: "@ + err)),
        None => match info.get("methodIdentifier"@) {
            None => failed(ErrorView::InvalidTarget("no method at this position"@)),
            Some(method) => (
                RunView::SignatureEdit,
                ActionView::Request {
                    method: "workspace/executeCommand"@,
                    params: signature_edit_json(context, method, params, info),
                },
            ),
        },
    }
}

/// The run once the edit of a change of signature is known.
pub open spec fn signature_done(result: JsonView) -> Started {
    match result.get_text("errorMessage"@) {
        Some(err) => failed(ErrorView::Backend("change-signature failed: "@ + err)),
        None => (
            RunView::Over,
            ActionView::Edit(member_or(result, "edit"@, JsonView::Null)),
        ),
    }
}

/// The run once an action that may come as a command is complete: its edit, else
/// the edit of its command, else none.
pub open spec fn completed(action: JsonView) -> Started {
    let edit = action.get("edit"@);
    match action.get("command"@) {
        _ if edit is Some && edit.unwrap() != JsonView::Null => (
            RunView::Over,
            ActionView::Edit(edit.unwrap()),
        ),
        Some(command) => match command.get_text("command"@) {
            None => failed(ErrorView::Backend("code action command has no name"@)),
            Some(name) => (
                RunView::AwaitCapture,
                ActionView::Capture {
                    method: "workspace/executeCommand"@,
                    params: command_json(
                        name,
                        member_or(command, "arguments"@, JsonView::Array(json::no_items())),
                    ),
                },
            ),
        },
        None => (RunView::Over, ActionView::NoEdit),
    }
}

/// The run once an action is chosen: an action without what is needed is
/// completed by the server.
pub open spec fn action_chosen(rule: ChoiceRuleView, action: JsonView) -> Started {
    let resolve = (
        RunView::ResolveAction { rule },
        ActionView::Request { method: "codeAction/resolve"@, params: action },
    );
    let edit = action.get("edit"@);
    if rule is SubKind {
        if edit is Some || action.get("command"@) is Some {
            completed(action)
        } else {
            resolve
        }
    } else {
        match edit {
            Some(e) => (RunView::Over, ActionView::Edit(e)),
            None => resolve,
        }
    }
}

/// The run once an action has been completed by the server.
pub open spec fn action_resolved(rule: ChoiceRuleView, action: JsonView) -> Started {
    if rule is SubKind {
        completed(action)
    } else {
        (RunView::Over, ActionView::Edit(member_or(action, "edit"@, JsonView::Null)))
    }
}

/// How a run goes on with a reply. A failure ends it.
pub open spec fn run_next(run: RunView, reply: ReplyView) -> Started {
    match (run, reply) {
        (_, ReplyView::Failed(message)) => failed(ErrorView::Backend(message)),
        (RunView::Rename { position, new_name }, ReplyView::Opened { uri }) => (
            RunView::AwaitEdit,
            ActionView::Request {
                method: "textDocument/rename"@,
                params: rename_json(uri, position, new_name),
            },
        ),
        (RunView::FindUsages { position, include_declaration }, ReplyView::Opened { uri }) => (
            RunView::AwaitLocations,
            ActionView::Request {
                method: "textDocument/references"@,
                params: references_json(uri, position, include_declaration),
            },
        ),
        (RunView::ListActions { id, kind, rule, range }, ReplyView::Opened { uri }) => (
            RunView::ChooseAction { id, kind, rule },
            ActionView::Request {
                method: "textDocument/codeAction"@,
                params: code_action_json(uri, range, kind),
            },
        ),
        (RunView::ChooseAction { id, kind, rule }, ReplyView::Answer(answer)) => match chosen_action(
            rule,
            kind,
            listed_actions(answer),
        ) {
            Some(action) => action_chosen(rule, action),
            None => failed(not_available(id)),
        },
        (RunView::ResolveAction { rule }, ReplyView::Answer(answer)) => action_resolved(
            rule,
            answer,
        ),
        (RunView::Signature { position, params }, ReplyView::Opened { uri }) => (
            RunView::SignatureInfo { context: signature_context(uri, position), params },
            ActionView::Request {
                method: "workspace/executeCommand"@,
                params: signature_info_json(signature_context(uri, position)),
            },
        ),
        (RunView::SignatureInfo { context, params }, ReplyView::Answer(info)) => signature_known(
            context,
            params,
            info,
        ),
        (RunView::SignatureEdit, ReplyView::Answer(result)) => signature_done(result),
        (RunView::AwaitEdit, ReplyView::Answer(edit)) => (RunView::Over, ActionView::Edit(edit)),
        (RunView::AwaitLocations, ReplyView::Answer(locations)) => (
            RunView::Over,
            ActionView::Usages(locations),
        ),
        (RunView::AwaitCapture, ReplyView::Captured(Some(edit))) => (
            RunView::Over,
            ActionView::Edit(edit),
        ),
        (RunView::AwaitCapture, ReplyView::Captured(None)) => (RunView::Over, ActionView::NoEdit),
        _ => failed(ErrorView::Backend("unexpected reply"@)),
    }
}

/// The run once an action that may come as a command is complete.
fn complete_action(action: &Json) -> (r: (Run, Action))
    ensures
        (r.0@, r.1@) == completed(action@),
{
    if let Some(edit) = action.get("edit") {
        if !edit.is_null() {
            return (Run::Over, Action::Edit(edit.copy()));
        }
    }
    match action.get("command") {
        Some(command) => match command.get_str("command") {
            Some(name) => (
                Run::AwaitCapture,
                Action::Capture {
                    method: "workspace/executeCommand".to_owned(),
                    params: command_params(
                        name,
                        copy_member_or(command, "arguments", Items::new().done()),
                    ),
                },
            ),
            None => (
                Run::Over,
                Action::Fail(Error::Backend("code action command has no name".to_owned())),
            ),
        },
        None => (Run::Over, Action::NoEdit),
    }
}

impl ChoiceRule {
    /// Whether the edit may come as a command.
    fn is_sub_kind(&self) -> (r: bool)
        ensures
            r == (self@ is SubKind),
    {
        match self {
            ChoiceRule::SubKind => true,
            _ => false,
        }
    }

    /// A rule that says the same.
    pub fn copy(&self) -> (r: ChoiceRule)
        ensures
            r@ == self@,
    {
        match self {
            ChoiceRule::SingleTarget { prefer_title } => ChoiceRule::SingleTarget {
                prefer_title: match prefer_title {
                    Some(s) => Some(s.clone()),
                    None => None,
                },
            },
            ChoiceRule::Keyword { keyword } => ChoiceRule::Keyword {
                keyword: match keyword {
                    Some(s) => Some(s.clone()),
                    None => None,
                },
            },
            ChoiceRule::SubKind => ChoiceRule::SubKind,
        }
    }
}

/// The run once an action is chosen.
fn take_action(rule: ChoiceRule, action: Json) -> (r: (Run, Action))
    ensures
        (r.0@, r.1@) == action_chosen(rule@, action@),
{
    if rule.is_sub_kind() {
        if action.get("edit").is_some() || action.get("command").is_some() {
            return complete_action(&action);
        }
    } else if let Some(edit) = action.get("edit") {
        return (Run::Over, Action::Edit(edit.copy()));
    }
    (
        Run::ResolveAction { rule },
        Action::Request { method: "codeAction/resolve".to_owned(), params: action },
    )
}

/// The run once the current signature is known.
fn take_signature(context: Json, params: &Json, info: &Json) -> (r: (Run, Action))
    ensures
        (r.0@, r.1@) == signature_known(context@, params@, info@),
{
    if let Some(err) = info.get_str("errorMessage") {
        return (
            Run::Over,
            Action::Fail(Error::Backend(cat2("change-signature unavailable here: ", err))),
        );
    }
    match info.get("methodIdentifier") {
        Some(method) => (
            Run::SignatureEdit,
            Action::Request {
                method: "workspace/executeCommand".to_owned(),
                params: signature_edit_params(context, method.copy(), params, info),
            },
        ),
        None => (
            Run::Over,
            Action::Fail(Error::InvalidTarget("no method at this position".to_owned())),
        ),
    }
}

/// The run once the edit of a change of signature is known.
fn take_signature_edit(result: &Json) -> (r: (Run, Action))
    ensures
        (r.0@, r.1@) == signature_done(result@),
{
    if let Some(err) = result.get_str("errorMessage") {
        return (
            Run::Over,
            Action::Fail(Error::Backend(cat2("change-signature failed: ", err))),
        );
    }
    (Run::Over, Action::Edit(copy_member_or(result, "edit", Json::Null)))
}

impl Run {
    /// Goes on with a reply.
    pub fn next(self, reply: Reply) -> (r: (Run, Action))
        ensures
            (r.0@, r.1@) == run_next(self@, reply@),
    {
        match (self, reply) {
            (_, Reply::Failed(message)) => (Run::Over, Action::Fail(Error::Backend(message))),
            (Run::Rename { position, new_name }, Reply::Opened { uri }) => (
                Run::AwaitEdit,
                Action::Request {
                    method: "textDocument/rename".to_owned(),
                    params: rename_params(uri.as_str(), position, new_name.as_str()),
                },
            ),
            (Run::FindUsages { position, include_declaration }, Reply::Opened { uri }) => (
                Run::AwaitLocations,
                Action::Request {
                    method: "textDocument/references".to_owned(),
                    params: references_params(uri.as_str(), position, include_declaration),
                },
            ),
            (Run::ListActions { id, kind, rule, range }, Reply::Opened { uri }) => {
                let params = code_action_params(uri.as_str(), range, kind.as_str());
                (
                    Run::ChooseAction { id, kind, rule },
                    Action::Request { method: "textDocument/codeAction".to_owned(), params },
                )
            },
            (Run::ChooseAction { id, kind, rule }, Reply::Answer(answer)) => match choose_action(
                &rule,
                kind.as_str(),
                id.as_str(),
                &answer,
            ) {
                Ok(action) => take_action(rule, action),
                Err(e) => (Run::Over, Action::Fail(e)),
            },
            (Run::ResolveAction { rule }, Reply::Answer(answer)) => if rule.is_sub_kind() {
                complete_action(&answer)
            } else {
                (Run::Over, Action::Edit(copy_member_or(&answer, "edit", Json::Null)))
            },
            (Run::Signature { position, params }, Reply::Opened { uri }) => {
                let context = code_action_params(
                    uri.as_str(),
                    range_value(position, position),
                    "refactor.change.signature",
                );
                let info = command_params(
                    "henka.mcp.getChangeSignatureInfo",
                    Items::new().with(context.copy()).done(),
                );
                (
                    Run::SignatureInfo { context, params },
                    Action::Request {
                        method: "workspace/executeCommand".to_owned(),
                        params: info,
                    },
                )
            },
            (Run::SignatureInfo { context, params }, Reply::Answer(info)) => take_signature(
                context,
                &params,
                &info,
            ),
            (Run::SignatureEdit, Reply::Answer(result)) => take_signature_edit(&result),
            (Run::AwaitEdit, Reply::Answer(edit)) => (Run::Over, Action::Edit(edit)),
            (Run::AwaitLocations, Reply::Answer(locations)) => (
                Run::Over,
                Action::Usages(locations),
            ),
            (Run::AwaitCapture, Reply::Captured(Some(edit))) => (Run::Over, Action::Edit(edit)),
            (Run::AwaitCapture, Reply::Captured(None)) => (Run::Over, Action::NoEdit),
            _ => (Run::Over, Action::Fail(Error::Backend("unexpected reply".to_owned()))),
        }
    }
}

// ---------------------------------------------------------------------------
// Descriptors
// ---------------------------------------------------------------------------

/// The schema of a value of a type, with a description.
pub open spec fn described(kind: Seq<char>, description: Seq<char>) -> JsonView {
    JsonView::Object(
        json::no_members().push(("type"@, JsonView::Text(kind))).push(
            ("description"@, JsonView::Text(description)),
        ),
    )
}

/// The schema of a Boolean with a default and a description.
pub open spec fn described_flag(default: bool, description: Seq<char>) -> JsonView {
    JsonView::Object(
        json::no_members().push(("type"@, JsonView::Text("boolean"@))).push(
            ("default"@, JsonView::Bool(default)),
        ).push(("description"@, JsonView::Text(description))),
    )
}

/// The schema of the parameters of a rename.
pub open spec fn rename_schema() -> JsonView {
    JsonView::Object(
        json::no_members().push(("type"@, JsonView::Text("object"@))).push(
            (
                "properties"@,
                JsonView::Object(
                    json::no_members().push(
                        ("new_name"@, described("string"@, "The new name for the symbol."@)),
                    ),
                ),
            ),
        ).push(
            ("required"@, JsonView::Array(json::no_items().push(JsonView::Text("new_name"@)))),
        ),
    )
}

/// The schema of the parameters of a search for usages.
pub open spec fn usages_schema() -> JsonView {
    JsonView::Object(
        json::no_members().push(("type"@, JsonView::Text("object"@))).push(
            (
                "properties"@,
                JsonView::Object(
                    json::no_members().push(
                        (
                            "include_declaration"@,
                            described_flag(
                                true,
                                "Whether to include the symbol's own declaration."@,
                            ),
                        ),
                    ),
                ),
            ),
        ),
    )
}

/// The schema of an operation without parameters of its own.
pub open spec fn empty_schema() -> JsonView {
    JsonView::Object(
        json::no_members().push(("type"@, JsonView::Text("object"@))).push(
            ("properties"@, JsonView::Object(json::no_members())),
        ),
    )
}

/// The descriptor of a rename.
pub open spec fn rename_description(languages: Seq<Language>) -> DescriptorView {
    DescriptorView {
        id: "rename"@,
        title: "Rename symbol"@,
        description: "Rename the symbol at the given position and update every reference"@,
        kind: OperationKind::Edit,
        languages,
        target: TargetKind::Position,
        params_schema: rename_schema(),
    }
}

/// The descriptor of a search for usages.
pub open spec fn usages_description(languages: Seq<Language>) -> DescriptorView {
    DescriptorView {
        id: "find-usages"@,
        title: "Find usages"@,
        description: "Find every reference to the symbol at the given position"@,
        kind: OperationKind::Query,
        languages,
        target: TargetKind::Position,
        params_schema: usages_schema(),
    }
}

/// The schema of a value of a type, with a description.
pub fn described_value(kind: &str, description: &str) -> (r: Json)
    ensures
        r@ == described(kind@, description@),
{
    Members::new().with("type", Json::text(kind)).with(
        "description",
        Json::text(description),
    ).done()
}

/// The schema of a Boolean with a default and a description.
pub fn described_flag_value(default: bool, description: &str) -> (r: Json)
    ensures
        r@ == described_flag(default, description@),
{
    Members::new().with("type", Json::text("boolean")).with("default", Json::Bool(default)).with(
        "description",
        Json::text(description),
    ).done()
}

/// The descriptor of a rename.
pub fn describe_rename(languages: Vec<Language>) -> (r: OperationDescriptor)
    ensures
        r@ == rename_description(languages@),
{
    let schema = Members::new().with("type", Json::text("object")).with(
        "properties",
        Members::new().with(
            "new_name",
            described_value("string", "The new name for the symbol."),
        ).done(),
    ).with("required", Items::new().with(Json::text("new_name")).done()).done();
    OperationDescriptor {
        id: "rename".to_owned(),
        title: "Rename symbol".to_owned(),
        description: "Rename the symbol at the given position and update every reference".to_owned(),
        kind: OperationKind::Edit,
        languages,
        target: TargetKind::Position,
        params_schema: schema,
    }
}

/// The descriptor of a search for usages.
pub fn describe_find_usages(languages: Vec<Language>) -> (r: OperationDescriptor)
    ensures
        r@ == usages_description(languages@),
{
    let schema = Members::new().with("type", Json::text("object")).with(
        "properties",
        Members::new().with(
            "include_declaration",
            described_flag_value(true, "Whether to include the symbol's own declaration."),
        ).done(),
    ).done();
    OperationDescriptor {
        id: "find-usages".to_owned(),
        title: "Find usages".to_owned(),
        description: "Find every reference to the symbol at the given position".to_owned(),
        kind: OperationKind::Query,
        languages,
        target: TargetKind::Position,
        params_schema: schema,
    }
}

/// What sets one code-action operation apart from another.
#[verifier::ext_equal]
pub struct ActionOpView {
    pub id: Seq<char>,
    pub title: Seq<char>,
    pub description: Seq<char>,
    pub action_kind: Seq<char>,
    pub rule: ChoiceRuleView,
    pub target: TargetKind,
}

/// The descriptor of a code-action operation.
pub open spec fn action_description(op: ActionOpView, languages: Seq<Language>) -> DescriptorView {
    DescriptorView {
        id: op.id,
        title: op.title,
        description: op.description,
        kind: OperationKind::Edit,
        languages,
        target: op.target,
        params_schema: empty_schema(),
    }
}

/// The descriptor of a code-action operation.
pub fn describe_code_action(
    id: &str,
    title: &str,
    description: &str,
    target: TargetKind,
    languages: Vec<Language>,
) -> (r: OperationDescriptor)
    ensures
        r@ == (DescriptorView {
            id: id@,
            title: title@,
            description: description@,
            kind: OperationKind::Edit,
            languages: languages@,
            target,
            params_schema: empty_schema(),
        }),
{
    OperationDescriptor {
        id: id.to_owned(),
        title: title.to_owned(),
        description: description.to_owned(),
        kind: OperationKind::Edit,
        languages,
        target,
        params_schema: Members::new().with("type", Json::text("object")).with(
            "properties",
            Members::new().done(),
        ).done(),
    }
}

// ---------------------------------------------------------------------------
// Laws
// ---------------------------------------------------------------------------

/// The most replies that a run can still take in.
pub open spec fn replies_left(run: RunView) -> nat {
    match run {
        RunView::ListActions { .. } => 4,
        RunView::Signature { .. } => 3,
        RunView::ChooseAction { .. } => 3,
        RunView::ResolveAction { .. } => 2,
        RunView::SignatureInfo { .. } => 2,
        RunView::Rename { .. } => 2,
        RunView::FindUsages { .. } => 2,
        RunView::SignatureEdit => 1,
        RunView::AwaitEdit => 1,
        RunView::AwaitLocations => 1,
        RunView::AwaitCapture => 1,
        RunView::Over => 0,
    }
}

/// Whether an action ends a run.
pub open spec fn ends_run(action: ActionView) -> bool {
    action is Edit || action is NoEdit || action is Usages || action is Fail
}

/// Every run ends: each reply brings it closer to its end, and it ends exactly
/// when it has an outcome or has failed.
pub proof fn runs_end(run: RunView, reply: ReplyView)
    ensures
        replies_left(run) > 0 ==> replies_left(run_next(run, reply).0) < replies_left(run),
        run_next(run, reply).0 is Over <==> ends_run(run_next(run, reply).1),
{
}

/// A failure of the server ends the run with just that failure.
pub proof fn failures_end_runs(run: RunView, message: Seq<char>)
    ensures
        run_next(run, ReplyView::Failed(message)) == failed(ErrorView::Backend(message)),
{
}

proof fn lemma_first_admitted(
    rule: ChoiceRuleView,
    kind: Seq<char>,
    actions: Seq<JsonView>,
    any: bool,
)
    ensures
        match first_admitted(rule, kind, actions, any) {
            Some(i) => 0 <= i < actions.len() && admitted(rule, kind, actions[i]) && (any
                || !second_choice(rule, actions[i])),
            None => forall|j: int|
                0 <= j < actions.len() ==> !admitted(rule, kind, #[trigger] actions[j]) || (!any
                    && second_choice(rule, actions[j])),
        },
    decreases actions.len(),
{
    if actions.len() > 0 {
        let front = actions.drop_last();
        lemma_first_admitted(rule, kind, front, any);
        if first_admitted(rule, kind, actions, any) is None {
            assert forall|j: int| 0 <= j < actions.len() implies !admitted(
                rule,
                kind,
                #[trigger] actions[j],
            ) || (!any && second_choice(rule, actions[j])) by {
                if j < front.len() {
                    assert(front[j] == actions[j]);
                }
            }
        }
    }
}

/// A chosen action is one of those that the server offered and that the rule
/// admits; it is a second choice only where every admitted action is. There is
/// none only where the rule admits none.
pub proof fn chosen_action_is_admitted(
    rule: ChoiceRuleView,
    kind: Seq<char>,
    actions: Seq<JsonView>,
)
    ensures
        match chosen_action(rule, kind, actions) {
            Some(a) => actions.contains(a) && admitted(rule, kind, a) && (second_choice(rule, a)
                ==> forall|j: int|
                0 <= j < actions.len() && admitted(rule, kind, #[trigger] actions[j])
                    ==> second_choice(rule, actions[j])),
            None => forall|j: int|
                0 <= j < actions.len() ==> !admitted(rule, kind, #[trigger] actions[j]),
        },
{
    lemma_first_admitted(rule, kind, actions, false);
    lemma_first_admitted(rule, kind, actions, true);
}

/// What is not asked for stays as it is: without wishes, a change of signature
/// asks for the current signature.
pub proof fn signature_defaults_to_the_current_one(method: JsonView, info: JsonView)
    ensures
        signature_arguments(method, JsonView::Object(json::no_members()), info)
            == JsonView::Array(
            json::no_items().push(method).push(JsonView::Bool(false)).push(
                member_or(info, "methodName"@, JsonView::Null),
            ).push(member_or(info, "modifier"@, JsonView::Null)).push(
                member_or(info, "returnType"@, JsonView::Null),
            ).push(member_or(info, "parameters"@, JsonView::Array(json::no_items()))).push(
                member_or(info, "exceptions"@, JsonView::Array(json::no_items())),
            ).push(JsonView::Bool(false)),
        ),
{
}

/// Whether a value, read as a position, is this position.
pub open spec fn says_position(v: Option<JsonView>, p: Position) -> bool {
    &&& v matches Some(v)
    &&& v.get("line"@) matches Some(line)
    &&& line.unsigned() == Some(p.line as u64)
    &&& v.get("character"@) matches Some(character)
    &&& character.unsigned() == Some(p.character as u64)
}

/// Whether a value, read as a range, reaches from one position to another.
pub open spec fn says_range(v: Option<JsonView>, start: Position, end: Position) -> bool {
    &&& v matches Some(v)
    &&& says_position(v.get("start"@), start)
    &&& says_position(v.get("end"@), end)
}

/// Whether parameters of a request are about the document with this URI.
pub open spec fn is_about(params: JsonView, uri: Seq<char>) -> bool {
    params.get("textDocument"@) matches Some(document) && document.get_text("uri"@) == Some(uri)
}

proof fn lemma_says_position(p: Position)
    ensures
        says_position(Some(position_json(p)), p),
{
    broadcast use json::lemma_lookup_of_pushed;

    reveal_strlit("line");
    reveal_strlit("character");
    assert("line"@.len() == 4);
    assert("character"@.len() == 9);
}

proof fn lemma_says_range(start: Position, end: Position)
    ensures
        says_range(Some(range_json(start, end)), start, end),
{
    broadcast use json::lemma_lookup_of_pushed;

    reveal_strlit("start");
    reveal_strlit("end");
    assert("start"@.len() == 5);
    assert("end"@.len() == 3);
    lemma_says_position(start);
    lemma_says_position(end);
}

/// A rename asks about the symbol at its target: it opens the file of the target,
/// sends the document, the position and the new name as they were given, and ends
/// with the edit that the server answers with.
pub proof fn rename_asks_about_its_target(
    file: Seq<char>,
    position: Position,
    params: JsonView,
    name: Seq<char>,
    uri: Seq<char>,
    answer: JsonView,
)
    requires
        params.get_text("new_name"@) == Some(name),
        name.len() > 0,
    ensures
        ({
            let first = rename_started(TargetView::Position { file, position }, params);
            let asked = run_next(first.0, ReplyView::Opened { uri });
            &&& first.1 == ActionView::Open { file }
            &&& asked.1 matches ActionView::Request { method, params: sent } && method
                == "textDocument/rename"@ && is_about(sent, uri) && says_position(
                sent.get("position"@),
                position,
            ) && sent.get_text("newName"@) == Some(name)
            &&& run_next(asked.0, ReplyView::Answer(answer)).1 == ActionView::Edit(answer)
        }),
{
    broadcast use json::lemma_lookup_of_pushed;

    reveal_strlit("textDocument");
    reveal_strlit("position");
    reveal_strlit("newName");
    reveal_strlit("uri");
    assert("textDocument"@.len() == 12);
    assert("position"@.len() == 8);
    assert("newName"@.len() == 7);
    assert("uri"@.len() == 3);
    lemma_says_position(position);
}

/// A rename without a new name, or of anything but a position, is refused.
pub proof fn rename_wants_a_position_and_a_name(target: TargetView, params: JsonView)
    ensures
        rename_started(target, params).1 is Fail <==> !(target is Position) || (params.get_text(
            "new_name"@,
        ) matches Some(name) ==> name.len() == 0),
{
}

/// A search for usages asks about the symbol at its target: it opens the file of the
/// target, sends the document and the position as they were given, leaves the
/// declaration out only where that is asked for, and ends with the locations that
/// the server answers with.
pub proof fn usages_are_those_of_the_target(
    file: Seq<char>,
    position: Position,
    params: JsonView,
    uri: Seq<char>,
    answer: JsonView,
)
    ensures
        ({
            let first = usages_started(TargetView::Position { file, position }, params);
            let asked = run_next(first.0, ReplyView::Opened { uri });
            &&& first.1 == ActionView::Open { file }
            &&& asked.1 matches ActionView::Request { method, params: sent } && method
                == "textDocument/references"@ && is_about(sent, uri) && says_position(
                sent.get("position"@),
                position,
            ) && json::inner(sent.get("context"@), "includeDeclaration"@) == Some(
                JsonView::Bool(params.get("include_declaration"@) != Some(JsonView::Bool(false))),
            )
            &&& run_next(asked.0, ReplyView::Answer(answer)).1 == ActionView::Usages(answer)
        }),
{
    broadcast use json::lemma_lookup_of_pushed;

    reveal_strlit("textDocument");
    reveal_strlit("position");
    reveal_strlit("context");
    reveal_strlit("uri");
    reveal_strlit("includeDeclaration");
    assert("textDocument"@.len() == 12);
    assert("position"@.len() == 8);
    assert("context"@.len() == 7);
    assert("uri"@.len() == 3);
    assert("includeDeclaration"@.len() == 18);
    lemma_says_position(position);
}

/// Renaming a symbol and looking for its usages ask about the same place of the same
/// document.
pub proof fn rename_and_usages_ask_about_the_same_place(
    target: TargetView,
    name: Seq<char>,
    rename: JsonView,
    find: JsonView,
    uri: Seq<char>,
)
    requires
        target is Position,
        rename.get_text("new_name"@) == Some(name),
        name.len() > 0,
    ensures
        rename_started(target, rename).1 == usages_started(target, find).1,
        run_next(rename_started(target, rename).0, ReplyView::Opened { uri }).1 matches
            ActionView::Request { params: a, .. } && run_next(
            usages_started(target, find).0,
            ReplyView::Opened { uri },
        ).1 matches ActionView::Request { params: b, .. } && a.get("position"@) == b.get(
            "position"@,
        ) && a.get("textDocument"@) == b.get("textDocument"@),
{
    broadcast use json::lemma_lookup_of_pushed;

    reveal_strlit("textDocument");
    reveal_strlit("position");
    assert("textDocument"@.len() == 12);
    assert("position"@.len() == 8);
}

/// Whether a value is a range for the target: the selection where there is one, an
/// empty range at a position, and an empty range at the very start of a whole file.
pub open spec fn is_range_for(v: Option<JsonView>, target: TargetView) -> bool {
    match target {
        TargetView::Selection { range, .. } => says_range(v, range.start, range.end),
        TargetView::Position { position, .. } => says_range(v, position, position),
        TargetView::File { .. } => says_range(
            v,
            Position { line: 0, character: 0 },
            Position { line: 0, character: 0 },
        ),
        TargetView::Project => false,
    }
}

/// A code action is asked for at its target: the run opens the file of the target and
/// asks for actions of the operation's kind and no other, for the range that was
/// selected, from its start to its end. A whole project has no such range.
pub proof fn actions_are_asked_for_at_the_target(
    id: Seq<char>,
    kind: Seq<char>,
    rule: ChoiceRuleView,
    target: TargetView,
    uri: Seq<char>,
)
    ensures
        ({
            let first = action_started(id, kind, rule, target);
            let asked = run_next(first.0, ReplyView::Opened { uri });
            match target.file() {
                Some(file) => {
                    &&& first.1 == ActionView::Open { file }
                    &&& asked.0 == (RunView::ChooseAction { id, kind, rule })
                    &&& asked.1 matches ActionView::Request { method, params: sent } && method
                        == "textDocument/codeAction"@ && is_about(sent, uri) && is_range_for(
                        sent.get("range"@),
                        target,
                    ) && json::inner(sent.get("context"@), "only"@) == Some(
                        JsonView::Array(seq![JsonView::Text(kind)]),
                    ) && json::inner(sent.get("context"@), "diagnostics"@) == Some(
                        JsonView::Array(Seq::<JsonView>::empty()),
                    )
                },
                None => first.0 is Over && first.1 is Fail,
            }
        }),
{
    broadcast use json::lemma_lookup_of_pushed;

    reveal_strlit("textDocument");
    reveal_strlit("range");
    reveal_strlit("context");
    reveal_strlit("uri");
    reveal_strlit("diagnostics");
    reveal_strlit("only");
    assert("textDocument"@.len() == 12);
    assert("range"@.len() == 5);
    assert("context"@.len() == 7);
    assert("uri"@.len() == 3);
    assert("diagnostics"@.len() == 11);
    assert("only"@.len() == 4);
    match target {
        TargetView::Selection { range, .. } => {
            lemma_says_range(range.start, range.end);
        },
        TargetView::Position { position, .. } => {
            lemma_says_range(position, position);
        },
        TargetView::File { .. } => {
            lemma_says_range(
                Position { line: 0, character: 0 },
                Position { line: 0, character: 0 },
            );
        },
        TargetView::Project => {},
    }
}

/// Different selections are asked about differently.
pub proof fn selections_are_told_apart(
    file: Seq<char>,
    a: Range,
    b: Range,
)
    requires
        action_range(TargetView::Selection { file, range: a }) == action_range(
            TargetView::Selection { file, range: b },
        ),
    ensures
        a == b,
{
    lemma_says_range(a.start, a.end);
    lemma_says_range(b.start, b.end);
}

/// The action that is taken is the first that is offered: the first of those that the
/// rule would rather take, else the first that it admits at all.
pub proof fn first_suitable_action_is_taken(
    rule: ChoiceRuleView,
    kind: Seq<char>,
    actions: Seq<JsonView>,
    i: int,
)
    requires
        0 <= i < actions.len(),
        admitted(rule, kind, actions[i]),
        second_choice(rule, actions[i]) ==> forall|j: int|
            0 <= j < actions.len() && admitted(rule, kind, #[trigger] actions[j])
                ==> second_choice(rule, actions[j]),
        forall|j: int|
            0 <= j < i && admitted(rule, kind, #[trigger] actions[j]) ==> second_choice(
                rule,
                actions[j],
            ) && !second_choice(rule, actions[i]),
    ensures
        chosen_action(rule, kind, actions) == Some(actions[i]),
{
    lemma_first_is_least(rule, kind, actions, false);
    lemma_first_is_least(rule, kind, actions, true);
}

proof fn lemma_first_is_least(
    rule: ChoiceRuleView,
    kind: Seq<char>,
    actions: Seq<JsonView>,
    any: bool,
)
    ensures
        match first_admitted(rule, kind, actions, any) {
            Some(i) => 0 <= i < actions.len() && admitted(rule, kind, actions[i]) && (any
                || !second_choice(rule, actions[i])) && forall|j: int|
                0 <= j < i ==> !admitted(rule, kind, #[trigger] actions[j]) || (!any
                    && second_choice(rule, actions[j])),
            None => forall|j: int|
                0 <= j < actions.len() ==> !admitted(rule, kind, #[trigger] actions[j]) || (!any
                    && second_choice(rule, actions[j])),
        },
    decreases actions.len(),
{
    if actions.len() > 0 {
        let front = actions.drop_last();
        lemma_first_is_least(rule, kind, front, any);
        assert forall|j: int| 0 <= j < front.len() implies #[trigger] actions[j] == front[j] by {}
        if let Some(i) = first_admitted(rule, kind, front, any) {
            assert(front[i] == actions[i]);
        }
    }
}

/// An action of another kind is never taken, however it is titled; and neither the
/// case of a title nor that of the text that is looked for in it matters.
pub proof fn kinds_decide_and_case_does_not(
    rule: ChoiceRuleView,
    kind: Seq<char>,
    a: JsonView,
    b: JsonView,
    want: Seq<char>,
    same: Seq<char>,
)
    requires
        a.get_text("kind"@) == b.get_text("kind"@),
        a.get_text("title"@) is Some,
        b.get_text("title"@) is Some,
        text::ascii_lowercase(a.get_text("title"@)->0) == text::ascii_lowercase(
            b.get_text("title"@)->0,
        ),
        text::ascii_lowercase(want) == text::ascii_lowercase(same),
    ensures
        admitted(rule, kind, a) ==> (a.get_text("kind"@) matches Some(k) && text::begins_with(
            k,
            kind,
        ) && (rule is SubKind || k == kind)),
        a.get_text("kind"@) == Some(kind) ==> admitted(ChoiceRuleView::SubKind, kind, a)
            && admitted(ChoiceRuleView::Keyword { keyword: None }, kind, a) && admitted(
            ChoiceRuleView::SingleTarget { prefer_title: None },
            kind,
            a,
        ),
        admitted(ChoiceRuleView::SingleTarget { prefer_title: Some(want) }, kind, a) == admitted(
            ChoiceRuleView::SingleTarget { prefer_title: Some(same) },
            kind,
            b,
        ),
        second_choice(ChoiceRuleView::SingleTarget { prefer_title: None }, a) == second_choice(
            ChoiceRuleView::SingleTarget { prefer_title: None },
            b,
        ),
        a.get_text("kind"@) == Some(kind) && text::contains_text(
            text::ascii_lowercase(a.get_text("title"@)->0),
            text::ascii_lowercase(want),
        ) ==> admitted(ChoiceRuleView::SingleTarget { prefer_title: Some(want) }, kind, a),
{
    if let Some(k) = a.get_text("kind"@) {
        assert(k.take(k.len() as int) =~= k);
    }
}

/// What a chosen action brings is handed on. An edit is the outcome of the run. Where
/// there is none, an action that may come as a command has its command executed, with
/// its own arguments, and the edit that the server then asks to have applied is the
/// outcome; every other action is completed by the server first.
pub proof fn chosen_actions_are_carried_out(
    id: Seq<char>,
    kind: Seq<char>,
    rule: ChoiceRuleView,
    answer: JsonView,
    action: JsonView,
    completed: JsonView,
    edit: JsonView,
)
    requires
        chosen_action(rule, kind, listed_actions(answer)) == Some(action),
        edit != JsonView::Null,
    ensures
        ({
            let next = run_next(
                RunView::ChooseAction { id, kind, rule },
                ReplyView::Answer(answer),
            );
            let then_next = run_next(next.0, ReplyView::Answer(completed));
            &&& action.get("edit"@) == Some(edit) ==> next == (
                RunView::Over,
                ActionView::Edit(edit),
            )
            &&& action.get("edit"@) is None && (!(rule is SubKind) || action.get("command"@) is None)
                ==> {
                &&& next.1 matches ActionView::Request { method, params } && method
                    == "codeAction/resolve"@ && params == action
                &&& completed.get("edit"@) == Some(edit) ==> then_next == (
                    RunView::Over,
                    ActionView::Edit(edit),
                )
                &&& rule is SubKind && completed.get("edit"@) is None ==> carries_out_command(
                    completed.get("command"@),
                    then_next,
                    edit,
                )
            }
            &&& rule is SubKind && action.get("edit"@) is None && action.get("command"@) is Some
                ==> carries_out_command(action.get("command"@), next, edit)
        }),
{
    if let Some(command) = action.get("command"@) {
        lemma_carries_out_command(command, edit);
    }
    if let Some(command) = completed.get("command"@) {
        lemma_carries_out_command(command, edit);
    }
}

/// Whether a run goes on by having a command executed, and ends with the edit that
/// the server asks to have applied. Without a command there is no edit, and one
/// without a name fails the run.
pub open spec fn carries_out_command(
    command: Option<JsonView>,
    next: Started,
    edit: JsonView,
) -> bool {
    match command {
        None => next == (RunView::Over, ActionView::NoEdit),
        Some(command) => match command.get_text("command"@) {
            None => next.1 is Fail,
            Some(name) => {
                &&& next.1 matches ActionView::Capture { method, params } && method
                    == "workspace/executeCommand"@ && params.get_text("command"@) == Some(name)
                    && params.get("arguments"@) == match command.get("arguments"@) {
                    Some(arguments) => Some(arguments),
                    None => Some(JsonView::Array(Seq::<JsonView>::empty())),
                }
                &&& run_next(next.0, ReplyView::Captured(Some(edit))) == (
                    RunView::Over,
                    ActionView::Edit(edit),
                )
                &&& run_next(next.0, ReplyView::Captured(None)) == (
                    RunView::Over,
                    ActionView::NoEdit,
                )
            },
        },
    }
}

proof fn lemma_carries_out_command(command: JsonView, edit: JsonView)
    ensures
        ({
            let action = JsonView::Object(json::no_members().push(("command"@, command)));
            carries_out_command(Some(command), completed(action), edit)
        }),
        forall|action: JsonView|
            action.get("edit"@) is None && action.get("command"@) == Some(command)
                ==> carries_out_command(Some(command), #[trigger] completed(action), edit),
{
    broadcast use json::lemma_lookup_of_pushed;

    reveal_strlit("command");
    reveal_strlit("arguments");
    reveal_strlit("edit");
    assert("command"@.len() == 7);
    assert("arguments"@.len() == 9);
    assert("edit"@.len() == 4);
}

/// What is offered by no action that the rule admits is not available.
pub proof fn nothing_suitable_is_not_available(
    id: Seq<char>,
    kind: Seq<char>,
    rule: ChoiceRuleView,
    answer: JsonView,
)
    requires
        forall|j: int|
            0 <= j < listed_actions(answer).len() ==> !admitted(
                rule,
                kind,
                #[trigger] listed_actions(answer)[j],
            ),
    ensures
        run_next(RunView::ChooseAction { id, kind, rule }, ReplyView::Answer(answer)).1 matches
            ActionView::Fail(ErrorView::OperationNotAvailable(why)) && text::begins_with(why, id),
{
    lemma_first_admitted(rule, kind, listed_actions(answer), false);
    lemma_first_admitted(rule, kind, listed_actions(answer), true);
    let why = id + " is not available at this location"@;
    assert(why.take(id.len() as int) =~= id);
}

/// Whether a value is what the call gives under a key, or what the current signature
/// has where the call gives nothing, or nothing.
pub open spec fn asked_or_current(
    v: JsonView,
    params: JsonView,
    wanted: Seq<char>,
    info: JsonView,
    current: Seq<char>,
) -> bool {
    match (params.get(wanted), info.get(current)) {
        (Some(asked), _) => v == asked,
        (None, Some(now)) => v == now,
        (None, None) => v == JsonView::Null,
    }
}

/// Whether a value, read as a parameter that the server is sent, is the parameter that
/// a call gives: with its type, name, default value and former place. A parameter
/// without a former place is new.
pub open spec fn is_wanted_parameter(sent: JsonView, given: JsonView) -> bool {
    &&& asked_or_current(
        member_or(sent, "type"@, JsonView::Null),
        given,
        "type"@,
        JsonView::Null,
        "type"@,
    )
    &&& asked_or_current(
        member_or(sent, "name"@, JsonView::Null),
        given,
        "name"@,
        JsonView::Null,
        "name"@,
    )
    &&& asked_or_current(
        member_or(sent, "defaultValue"@, JsonView::Null),
        given,
        "default_value"@,
        JsonView::Null,
        "default_value"@,
    )
    &&& sent.get("originalIndex"@) matches Some(index) && index.integer() == Some(
        match given.get("original_index"@) {
            Some(v) => match v.integer() {
                Some(n) => n,
                None => -1,
            },
            None => -1,
        },
    )
}

/// Whether the arguments of a change of signature are what a call asks for, with the
/// current signature where it asks for nothing: the method, whether a delegate stays,
/// the name, the visibility, the return type, the parameters one by one, the
/// exceptions, and that no preview is wanted.
pub open spec fn is_wanted_signature(
    sent: Seq<JsonView>,
    method: JsonView,
    params: JsonView,
    info: JsonView,
) -> bool {
    &&& sent.len() == 8
    &&& sent[0] == method
    &&& sent[1] == JsonView::Bool(params.get("delegate"@) == Some(JsonView::Bool(true)))
    &&& asked_or_current(sent[2], params, "name"@, info, "methodName"@)
    &&& asked_or_current(sent[3], params, "modifier"@, info, "modifier"@)
    &&& asked_or_current(sent[4], params, "return_type"@, info, "returnType"@)
    &&& match (params.get("parameters"@), info.get("parameters"@)) {
        (Some(JsonView::Array(given)), _) => sent[5].items() matches Some(list) && list.len()
            == given.len() && forall|i: int|
            0 <= i < given.len() ==> is_wanted_parameter(#[trigger] list[i], given[i]),
        (Some(_), _) => sent[5] == JsonView::Array(Seq::<JsonView>::empty()),
        (None, Some(now)) => sent[5] == now,
        (None, None) => sent[5] == JsonView::Array(Seq::<JsonView>::empty()),
    }
    &&& sent[6] == match info.get("exceptions"@) {
        Some(now) => now,
        None => JsonView::Array(Seq::<JsonView>::empty()),
    }
    &&& sent[7] == JsonView::Bool(false)
}

proof fn lemma_integer_json(n: int)
    requires
        i64::MIN <= n <= i64::MAX,
    ensures
        json::integer_json(n).integer() == Some(n),
{
}

proof fn lemma_wanted_parameter(given: JsonView)
    ensures
        is_wanted_parameter(parameter_json(given), given),
{
    broadcast use json::lemma_lookup_of_pushed;

    reveal_strlit("type");
    reveal_strlit("name");
    reveal_strlit("defaultValue");
    reveal_strlit("originalIndex");
    assert("type"@.len() == 4);
    assert("name"@.len() == 4);
    assert("defaultValue"@.len() == 12);
    assert("originalIndex"@.len() == 13);
    assert("type"@[0] != "name"@[0]);
    let index = match given.get("original_index"@) {
        Some(v) => match v.integer() {
            Some(n) => n,
            None => -1,
        },
        None => -1,
    };
    lemma_integer_json(index);
}

proof fn lemma_wanted_signature(method: JsonView, params: JsonView, info: JsonView)
    ensures
        signature_arguments(method, params, info) matches JsonView::Array(sent)
            && is_wanted_signature(sent, method, params, info),
{
    let sent = signature_arguments(method, params, info)->Array_0;
    if let Some(JsonView::Array(given)) = params.get("parameters"@) {
        let list = sent[5]->Array_0;
        assert forall|i: int| 0 <= i < given.len() implies is_wanted_parameter(
            #[trigger] list[i],
            given[i],
        ) by {
            lemma_wanted_parameter(given[i]);
        }
    } else if let Some(other) = params.get("parameters"@) {
        assert(listed_actions(other) =~= Seq::<JsonView>::empty());
        assert(sent[5]->Array_0 =~= Seq::<JsonView>::empty());
    }
}

/// A change of signature changes what is asked for, and nothing else. It opens the
/// file of its target, asks for the signature of the method at its position, and then
/// for the edit that gives this method the name, the visibility, the return type and
/// the parameters of the call, with what is not in the call as it is now. It ends with
/// the edit that the server answers with.
pub proof fn signatures_change_as_asked(
    file: Seq<char>,
    position: Position,
    params: JsonView,
    uri: Seq<char>,
    info: JsonView,
    method: JsonView,
    result: JsonView,
    edit: JsonView,
)
    requires
        info.get_text("errorMessage"@) is None,
        info.get("methodIdentifier"@) == Some(method),
        result.get_text("errorMessage"@) is None,
        result.get("edit"@) == Some(edit),
    ensures
        ({
            let first = signature_started(TargetView::Position { file, position }, params);
            let asked = run_next(first.0, ReplyView::Opened { uri });
            let known = run_next(asked.0, ReplyView::Answer(info));
            &&& first.1 == ActionView::Open { file }
            &&& asked.1 matches ActionView::Request { method: m, params: p } && m
                == "workspace/executeCommand"@ && p.get_text("command"@) == Some(
                "henka.mcp.getChangeSignatureInfo"@,
            )
            &&& json::inner(sent_with(asked.1), "arguments"@) matches Some(JsonView::Array(asks))
                && asks.len() == 1 && is_about(asks[0], uri) && says_range(
                asks[0].get("range"@),
                position,
                position,
            )
            &&& known.1 matches ActionView::Request { method: m, params: p } && m
                == "workspace/executeCommand"@ && p.get_text("command"@) == Some(
                "henka.mcp.getRefactorEdit"@,
            )
            &&& json::inner(sent_with(known.1), "arguments"@) matches Some(JsonView::Array(wants))
                && wants.len() == 1 && wants[0].get_text("command"@) == Some("changeSignature"@)
                && is_about(member_or(wants[0], "context"@, JsonView::Null), uri) && says_range(
                json::inner(wants[0].get("context"@), "range"@),
                position,
                position,
            ) && (wants[0].get("commandArguments"@) matches Some(JsonView::Array(sent))
                && is_wanted_signature(sent, method, params, info))
            &&& run_next(known.0, ReplyView::Answer(result)) == (
                RunView::Over,
                ActionView::Edit(edit),
            )
        }),
{
    broadcast use json::lemma_lookup_of_pushed;

    reveal_strlit("command");
    reveal_strlit("arguments");
    reveal_strlit("context");
    reveal_strlit("commandArguments");
    assert("command"@.len() == 7);
    assert("arguments"@.len() == 9);
    assert("context"@.len() == 7);
    assert("commandArguments"@.len() == 16);
    assert("command"@[2] != "context"@[2]);
    lemma_signature_context(uri, position);
    lemma_wanted_signature(method, params, info);
}

/// The parameters of a request.
pub open spec fn sent_with(action: ActionView) -> Option<JsonView> {
    match action {
        ActionView::Request { params, .. } => Some(params),
        ActionView::Capture { params, .. } => Some(params),
        _ => None,
    }
}

proof fn lemma_signature_context(uri: Seq<char>, position: Position)
    ensures
        is_about(signature_context(uri, position), uri),
        says_range(signature_context(uri, position).get("range"@), position, position),
{
    broadcast use json::lemma_lookup_of_pushed;

    reveal_strlit("textDocument");
    reveal_strlit("range");
    reveal_strlit("uri");
    assert("textDocument"@.len() == 12);
    assert("range"@.len() == 5);
    assert("uri"@.len() == 3);
    lemma_says_range(position, position);
}

/// What the server says against a change of signature ends the run and is passed on;
/// so is the run over where there is no method.
pub proof fn refused_signatures_end_the_run(
    context: JsonView,
    params: JsonView,
    answer: JsonView,
    why: Seq<char>,
)
    ensures
        answer.get_text("errorMessage"@) == Some(why) ==> {
            &&& run_next(
                RunView::SignatureInfo { context, params },
                ReplyView::Answer(answer),
            ).1 matches ActionView::Fail(ErrorView::Backend(message)) && text::finishes_with(
                message,
                why,
            )
            &&& run_next(RunView::SignatureEdit, ReplyView::Answer(answer)).1 matches
                ActionView::Fail(ErrorView::Backend(message)) && text::finishes_with(message, why)
        },
        answer.get_text("errorMessage"@) is None && answer.get("methodIdentifier"@) is None
            ==> run_next(
            RunView::SignatureInfo { context, params },
            ReplyView::Answer(answer),
        ).1 matches ActionView::Fail(ErrorView::InvalidTarget(_)),
{
    let a = "change-signature unavailable here: "@;
    let b = "change-signature failed: "@;
    assert((a + why).subrange(a.len() as int, (a + why).len() as int) =~= why);
    assert((b + why).subrange(b.len() as int, (b + why).len() as int) =~= why);
}

/// What an operation says of itself is what it does. A rename is an edit at a
/// position, and requires the new name, a text. A search for usages is a query at a
/// position; its flag is one that need not be given, and counts as set. A code
/// action is an edit at its own target, requires nothing, and has the id, the title
/// and the description of its own.
pub proof fn operations_say_what_they_do(languages: Seq<Language>, op: ActionOpView)
    ensures
        rename_description(languages).kind == OperationKind::Edit,
        rename_description(languages).target == TargetKind::Position,
        rename_description(languages).languages == languages,
        rename_schema().get("required"@) == Some(
            JsonView::Array(seq![JsonView::Text("new_name"@)]),
        ),
        json::inner(json::inner(rename_schema().get("properties"@), "new_name"@), "type"@) == Some(
            JsonView::Text("string"@),
        ),
        usages_description(languages).kind == OperationKind::Query,
        usages_description(languages).target == TargetKind::Position,
        usages_description(languages).languages == languages,
        usages_schema().get("required"@) is None,
        json::inner(
            json::inner(usages_schema().get("properties"@), "include_declaration"@),
            "default"@,
        ) == Some(JsonView::Bool(true)),
        ({
            let d = action_description(op, languages);
            &&& d.kind == OperationKind::Edit
            &&& d.target == op.target
            &&& d.languages == languages
            &&& d.id == op.id && d.title == op.title && d.description == op.description
            &&& d.params_schema.get("required"@) is None
            &&& d.params_schema.get("properties"@) == Some(JsonView::Object(seq![]))
        }),
{
    broadcast use json::lemma_lookup_of_pushed;

    reveal_strlit("type");
    reveal_strlit("properties");
    reveal_strlit("required");
    reveal_strlit("description");
    reveal_strlit("default");
    reveal_strlit("new_name");
    reveal_strlit("include_declaration");
    reveal_strlit("string");
    reveal_strlit("boolean");
    reveal_strlit("object");
    assert("type"@.len() == 4);
    assert("properties"@.len() == 10);
    assert("required"@.len() == 8);
    assert("description"@.len() == 11);
    assert("default"@.len() == 7);
    assert("new_name"@.len() == 8);
    assert("include_declaration"@.len() == 19);
    assert("string"@.len() == 6);
    assert("boolean"@.len() == 7);
    assert("object"@.len() == 6);
    assert("required"@[0] != "new_name"@[0]);
    assert("default"@[0] != "boolean"@[0]);
    assert("string"@[0] != "object"@[0]);
    assert(json::no_items().push(JsonView::Text("new_name"@)) =~= seq![
        JsonView::Text("new_name"@),
    ]);
    assert(json::no_members() =~= seq![]);
}

} // verus!

//! The messages of a client: requests and notifications that go out, and the
//! routing of what comes in.
use vstd::prelude::*;

use crate::json;
use crate::json::{Json, JsonView, Members};
use crate::lsp::error::{LspError, LspErrorView};
use crate::text::same_text;

verus! {

// ---------------------------------------------------------------------------
// Outgoing messages
// ---------------------------------------------------------------------------

/// A request.
pub open spec fn request_json(id: i64, method: Seq<char>, params: JsonView) -> JsonView {
    JsonView::Object(
        json::no_members().push(("jsonrpc"@, JsonView::Text("2.0"@))).push(
            ("id"@, json::integer_json(id as int)),
        ).push(("method"@, JsonView::Text(method))).push(("params"@, params)),
    )
}

/// A notification.
pub open spec fn notification_json(method: Seq<char>, params: JsonView) -> JsonView {
    JsonView::Object(
        json::no_members().push(("jsonrpc"@, JsonView::Text("2.0"@))).push(
            ("method"@, JsonView::Text(method)),
        ).push(("params"@, params)),
    )
}

/// The answer to a request of the server.
pub open spec fn reply_json(id: JsonView, result: JsonView) -> JsonView {
    JsonView::Object(
        json::no_members().push(("jsonrpc"@, JsonView::Text("2.0"@))).push(("id"@, id)).push(
            ("result"@, result),
        ),
    )
}

/// A request.
pub fn request_message(id: i64, method: &str, params: Json) -> (r: Json)
    ensures
        r@ == request_json(id, method@, params@),
{
    Members::new().with("jsonrpc", Json::text("2.0")).with("id", Json::integer(id)).with(
        "method",
        Json::text(method),
    ).with("params", params).done()
}

/// A notification.
pub fn notification_message(method: &str, params: Json) -> (r: Json)
    ensures
        r@ == notification_json(method@, params@),
{
    Members::new().with("jsonrpc", Json::text("2.0")).with("method", Json::text(method)).with(
        "params",
        params,
    ).done()
}

/// The answer to a request of the server.
pub fn reply_message(id: Json, result: Json) -> (r: Json)
    ensures
        r@ == reply_json(id@, result@),
{
    Members::new().with("jsonrpc", Json::text("2.0")).with("id", id).with("result", result).done()
}

// ---------------------------------------------------------------------------
// Incoming messages
// ---------------------------------------------------------------------------

/// The answer that a request of the server gets by default: nothing, but one
/// empty setting for each setting asked for, and consent to edits.
pub open spec fn default_response(method: Seq<char>, params: Option<JsonView>) -> JsonView {
    if method == "workspace/configuration"@ {
        let n = match params {
            Some(p) => match p.get("items"@) {
                Some(items) => match items.items() {
                    Some(v) => v.len(),
                    None => 0,
                },
                None => 0,
            },
            None => 0,
        };
        JsonView::Array(Seq::new(n, |i: int| JsonView::Null))
    } else if method == "workspace/applyEdit"@ {
        JsonView::Object(json::no_members().push(("applied"@, JsonView::Bool(true))))
    } else {
        JsonView::Null
    }
}

/// The answer that a request of the server gets by default.
pub fn default_server_response(method: &str, params: Option<&Json>) -> (r: Json)
    ensures
        r@ == default_response(
            method@,
            match params {
                Some(p) => Some(p@),
                None => None,
            },
        ),
{
    if same_text(method, "workspace/configuration") {
        let n: usize = match params {
            Some(p) => match p.get("items") {
                Some(items) => match items.as_array() {
                    Some(v) => v.len(),
                    None => 0,
                },
                None => 0,
            },
            None => 0,
        };
        let mut out: Vec<Json> = Vec::new();
        let mut i: usize = 0;
        let ghost want = Seq::new(n as nat, |i: int| JsonView::Null);
        while i < n
            invariant
                i <= n,
                want == Seq::new(n as nat, |i: int| JsonView::Null),
                json::json_views(out@) == want.take(i as int),
            decreases n - i,
        {
            let ghost before = json::json_views(out@);
            out.push(Json::Null);
            i += 1;
            assert(json::json_views(out@) =~= before.push(JsonView::Null));
            assert(want.take(i as int) =~= want.take(i - 1).push(want[i - 1]));
        }
        assert(want.take(i as int) =~= want);
        Json::list(out)
    } else if same_text(method, "workspace/applyEdit") {
        Members::new().with("applied", Json::Bool(true)).done()
    } else {
        Json::Null
    }
}

/// What an incoming message is.
#[derive(Debug)]
pub enum Incoming {
    /// The answer to a request.
    Response {
        /// The request that it answers.
        id: i64,
        /// Its result, or the error that the server reports.
        outcome: Result<Json, LspError>,
    },
    /// A request of the server, and what to answer.
    ServerRequest {
        /// The answer.
        reply: Json,
    },
    /// A notification.
    Notification {
        /// Its method.
        method: String,
    },
    /// None of these.
    Ignored,
}

/// What an [`Incoming`] says.
pub enum IncomingView {
    Response { id: int, outcome: Result<JsonView, LspErrorView> },
    ServerRequest { reply: JsonView },
    Notification { method: Seq<char> },
    Ignored,
}

impl View for Incoming {
    type V = IncomingView;

    open spec fn view(&self) -> IncomingView {
        match self {
            Incoming::Response { id, outcome } => IncomingView::Response {
                id: *id as int,
                outcome: match outcome {
                    Ok(v) => Ok(v@),
                    Err(e) => Err(e@),
                },
            },
            Incoming::ServerRequest { reply } => IncomingView::ServerRequest { reply: reply@ },
            Incoming::Notification { method } => IncomingView::Notification { method: method@ },
            Incoming::Ignored => IncomingView::Ignored,
        }
    }
}

/// The error that a response reports. A missing code counts as zero, a missing
/// message as empty.
pub open spec fn response_error(err: JsonView) -> LspErrorView {
    LspErrorView::Response {
        code: match err.get("code"@) {
            Some(code) => match code.integer() {
                Some(n) => n as i64,
                None => 0,
            },
            None => 0,
        },
        message: match err.get_text("message"@) {
            Some(s) => s,
            None => seq![],
        },
    }
}

/// What an incoming message is: a response has an id and a result or an error; a
/// request of the server has a method and an id; a notification has a method.
pub open spec fn routed(msg: JsonView) -> IncomingView {
    let id = msg.get("id"@);
    let result = msg.get("result"@);
    let error = msg.get("error"@);
    let method = msg.get_text("method"@);
    if id is Some && (result is Some || error is Some) {
        match id.unwrap().integer() {
            Some(n) => IncomingView::Response {
                id: n,
                outcome: match error {
                    Some(e) => Err(response_error(e)),
                    None => Ok(result.unwrap()),
                },
            },
            None => IncomingView::Ignored,
        }
    } else {
        match (method, id) {
            (Some(m), Some(id)) => IncomingView::ServerRequest {
                reply: reply_json(id, default_response(m, msg.get("params"@))),
            },
            (Some(m), None) => IncomingView::Notification { method: m },
            _ => IncomingView::Ignored,
        }
    }
}

/// What an incoming message is.
pub fn handle_incoming(msg: &Json) -> (r: Incoming)
    ensures
        r@ == routed(msg@),
{
    let id = msg.get("id");
    let result = msg.get("result");
    let error = msg.get("error");
    if let Some(id) = id {
        if result.is_some() || error.is_some() {
            let n = match id.as_i64() {
                Some(n) => n,
                None => {
                    return Incoming::Ignored;
                },
            };
            if let Some(err) = error {
                let code: i64 = match err.get("code") {
                    Some(code) => match code.as_i64() {
                        Some(n) => n,
                        None => 0,
                    },
                    None => 0,
                };
                let message = match err.get_str("message") {
                    Some(s) => s.to_owned(),
                    None => String::new(),
                };
                return Incoming::Response {
                    id: n,
                    outcome: Err(LspError::Response { code, message }),
                };
            }
            if let Some(result) = result {
                return Incoming::Response { id: n, outcome: Ok(result.copy()) };
            }
        }
    }
    match msg.get_str("method") {
        Some(method) => match id {
            Some(id) => Incoming::ServerRequest {
                reply: reply_message(id.copy(), default_server_response(method, msg.get("params"))),
            },
            None => Incoming::Notification { method: method.to_owned() },
        },
        None => Incoming::Ignored,
    }
}

// ---------------------------------------------------------------------------
// Requests that wait for an answer
// ---------------------------------------------------------------------------

/// The requests that wait for an answer, by id, and the id of the next one.
#[derive(Debug)]
pub struct Pending<T> {
    next_id: i64,
    waiting: Vec<(i64, T)>,
}

/// Whether no id stands twice.
pub open spec fn distinct_ids<T>(v: Seq<(i64, T)>) -> bool {
    forall|i: int, j: int| 0 <= i < j < v.len() ==> (#[trigger] v[i]).0 != (#[trigger] v[j]).0
}

/// The waiters of a list, by id.
pub open spec fn waiting_map<T>(v: Seq<(i64, T)>) -> Map<i64, T> {
    Map::new(
        |id: i64| exists|i: int| 0 <= i < v.len() && (#[trigger] v[i]).0 == id,
        |id: i64| v[choose|i: int| 0 <= i < v.len() && (#[trigger] v[i]).0 == id].1,
    )
}

proof fn lemma_waiting_map<T>(v: Seq<(i64, T)>)
    requires
        distinct_ids(v),
    ensures
        forall|i: int|
            0 <= i < v.len() ==> waiting_map(v).dom().contains((#[trigger] v[i]).0) && waiting_map(
                v,
            )[v[i].0] == v[i].1,
        forall|id: i64| #[trigger]
            waiting_map(v).dom().contains(id) ==> exists|i: int|
                0 <= i < v.len() && (#[trigger] v[i]).0 == id && waiting_map(v)[id] == v[i].1,
{
    assert forall|i: int| 0 <= i < v.len() implies waiting_map(v).dom().contains(
        (#[trigger] v[i]).0,
    ) && waiting_map(v)[v[i].0] == v[i].1 by {
        let k = choose|k: int| 0 <= k < v.len() && (#[trigger] v[k]).0 == v[i].0;
        if k < i {
            assert(v[k].0 != v[i].0);
        }
        if i < k {
            assert(v[i].0 != v[k].0);
        }
    }
}

proof fn lemma_removed<T>(v: Seq<(i64, T)>, at: int)
    requires
        distinct_ids(v),
        0 <= at < v.len(),
    ensures
        distinct_ids(v.remove(at)),
        waiting_map(v.remove(at)) == waiting_map(v).remove(v[at].0),
{
    let w = v.remove(at);
    assert forall|i: int, j: int| 0 <= i < j < w.len() implies (#[trigger] w[i]).0 != (
    #[trigger] w[j]).0 by {
        let a = if i < at {
            i
        } else {
            i + 1
        };
        let b = if j < at {
            j
        } else {
            j + 1
        };
        assert(v[a].0 != v[b].0);
    }
    lemma_waiting_map(v);
    lemma_waiting_map(w);
    let want = waiting_map(v).remove(v[at].0);
    assert forall|id: i64| #[trigger] waiting_map(w).dom().contains(id) implies want.dom().contains(
        id,
    ) && waiting_map(w)[id] == want[id] by {
        let i = choose|i: int|
            0 <= i < w.len() && (#[trigger] w[i]).0 == id && waiting_map(w)[id] == w[i].1;
        let k = if i < at {
            i
        } else {
            i + 1
        };
        assert(v[k] == w[i]);
        if k < at {
            assert(v[k].0 != v[at].0);
        } else {
            assert(v[at].0 != v[k].0);
        }
    }
    assert forall|id: i64| #[trigger] want.dom().contains(id) implies waiting_map(w).dom().contains(
        id,
    ) by {
        let i = choose|i: int| 0 <= i < v.len() && (#[trigger] v[i]).0 == id;
        if i < at {
            assert(w[i].0 == id);
        } else {
            assert(w[i - 1].0 == id);
        }
    }
    assert(waiting_map(w) =~= want);
}

proof fn lemma_pushed<T>(v: Seq<(i64, T)>, id: i64, t: T)
    requires
        distinct_ids(v),
        !waiting_map(v).dom().contains(id),
    ensures
        distinct_ids(v.push((id, t))),
        waiting_map(v.push((id, t))) == waiting_map(v).insert(id, t),
{
    let w = v.push((id, t));
    assert forall|i: int, j: int| 0 <= i < j < w.len() implies (#[trigger] w[i]).0 != (
    #[trigger] w[j]).0 by {
        if j < v.len() {
            assert(v[i].0 != v[j].0);
        } else {
            assert(v[i].0 == w[i].0);
            assert(waiting_map(v).dom().contains(v[i].0)) by {
                lemma_waiting_map(v);
            }
        }
    }
    lemma_waiting_map(v);
    lemma_waiting_map(w);
    let want = waiting_map(v).insert(id, t);
    assert forall|k: i64| #[trigger] waiting_map(w).dom().contains(k) implies want.dom().contains(k)
        && waiting_map(w)[k] == want[k] by {
        let i = choose|i: int|
            0 <= i < w.len() && (#[trigger] w[i]).0 == k && waiting_map(w)[k] == w[i].1;
        if i < v.len() {
            assert(v[i] == w[i]);
        }
    }
    assert forall|k: i64| #[trigger] want.dom().contains(k) implies waiting_map(w).dom().contains(
        k,
    ) by {
        if k == id {
            assert(w[v.len() as int].0 == k);
        } else {
            let i = choose|i: int| 0 <= i < v.len() && (#[trigger] v[i]).0 == k;
            assert(w[i].0 == k);
        }
    }
    assert(waiting_map(w) =~= want);
}

impl<T> View for Pending<T> {
    type V = Map<i64, T>;

    /// The waiters by the id of their request.
    closed spec fn view(&self) -> Map<i64, T> {
        waiting_map(self.waiting@)
    }
}

impl<T> Pending<T> {
    /// No id stands twice.
    pub closed spec fn wf(&self) -> bool {
        distinct_ids(self.waiting@)
    }

    /// The id that the next request gets.
    pub closed spec fn next(&self) -> i64 {
        self.next_id
    }

    /// No requests; the first gets the id 1.
    pub fn new() -> (r: Self)
        ensures
            r.wf(),
            r@ == Map::<i64, T>::empty(),
            r.next() == 1,
    {
        let r = Pending { next_id: 1, waiting: Vec::new() };
        assert(r@ =~= Map::<i64, T>::empty());
        r
    }

    /// Takes out the waiter of a request.
    pub fn remove(&mut self, id: i64) -> (r: Option<T>)
        requires
            old(self).wf(),
        ensures
            final(self).wf(),
            final(self).next() == old(self).next(),
            final(self)@ == old(self)@.remove(id),
            r is Some == old(self)@.dom().contains(id),
            r matches Some(t) ==> t == old(self)@[id],
    {
        let ghost before = self.waiting@;
        proof {
            lemma_waiting_map(before);
        }
        let mut i: usize = 0;
        while i < self.waiting.len()
            invariant
                i <= self.waiting@.len(),
                self.waiting@ == before,
                *self == *old(self),
                distinct_ids(before),
                forall|j: int| 0 <= j < i ==> (#[trigger] before[j]).0 != id,
                forall|j: int|
                    0 <= j < before.len() ==> waiting_map(before).dom().contains(
                        (#[trigger] before[j]).0,
                    ) && waiting_map(before)[before[j].0] == before[j].1,
            decreases self.waiting@.len() - i,
        {
            if self.waiting[i].0 == id {
                proof {
                    lemma_removed(before, i as int);
                }
                let (_, t) = self.waiting.remove(i);
                return Some(t);
            }
            i += 1;
        }
        assert(self@.remove(id) =~= self@);
        None
    }

    /// Enters a waiter and returns the id of its request. Ids count up from one
    /// and start over behind the largest; a waiter that still has the id makes
    /// way.
    pub fn open(&mut self, waiter: T) -> (r: i64)
        requires
            old(self).wf(),
        ensures
            final(self).wf(),
            r == old(self).next(),
            final(self).next() == if r == i64::MAX {
                i64::MIN
            } else {
                (r + 1) as i64
            },
            final(self)@ == old(self)@.insert(r, waiter),
    {
        let id: i64 = self.next_id;
        let ghost before = self@;
        self.remove(id);
        proof {
            lemma_pushed(self.waiting@, id, waiter);
        }
        self.waiting.push((id, waiter));
        self.next_id = if id == i64::MAX {
            i64::MIN
        } else {
            id + 1
        };
        assert(before.remove(id).insert(id, waiter) =~= before.insert(id, waiter));
        id
    }

    /// Takes out all waiters; every one of them is to be told that the connection
    /// closed.
    pub fn drain(&mut self) -> (r: Vec<(i64, T)>)
        requires
            old(self).wf(),
        ensures
            final(self).wf(),
            final(self).next() == old(self).next(),
            final(self)@ == Map::<i64, T>::empty(),
            distinct_ids(r@),
            waiting_map(r@) == old(self)@,
    {
        let mut out: Vec<(i64, T)> = Vec::new();
        std::mem::swap(&mut out, &mut self.waiting);
        assert(self@ =~= Map::<i64, T>::empty());
        out
    }
}

// ---------------------------------------------------------------------------
// Laws
// ---------------------------------------------------------------------------

/// Whoever reads a request finds its id, its method and its parameters in it; whoever
/// reads a notification finds its method and its parameters, and no id; whoever reads
/// an answer finds the id of the request and the result.
pub proof fn messages_say_what_they_are_about(
    id: i64,
    method: Seq<char>,
    params: JsonView,
    asked: JsonView,
)
    ensures
        ({
            let request = request_json(id, method, params);
            let notification = notification_json(method, params);
            let reply = reply_json(asked, params);
            &&& request.get_text("jsonrpc"@) == Some("2.0"@)
            &&& request.get("id"@) matches Some(n) && n.integer() == Some(id as int)
            &&& request.get_text("method"@) == Some(method)
            &&& request.get("params"@) == Some(params)
            &&& notification.get_text("jsonrpc"@) == Some("2.0"@)
            &&& notification.get("id"@) is None
            &&& notification.get_text("method"@) == Some(method)
            &&& notification.get("params"@) == Some(params)
            &&& reply.get_text("jsonrpc"@) == Some("2.0"@)
            &&& reply.get("id"@) == Some(asked)
            &&& reply.get("result"@) == Some(params)
            &&& reply.get("error"@) is None
        }),
{
    broadcast use json::lemma_lookup_of_pushed;

    reveal_strlit("jsonrpc");
    reveal_strlit("id");
    reveal_strlit("method");
    reveal_strlit("params");
    reveal_strlit("result");
    reveal_strlit("error");
    assert("jsonrpc"@.len() == 7);
    assert("id"@.len() == 2);
    assert("method"@.len() == 6);
    assert("params"@.len() == 6);
    assert("result"@.len() == 6);
    assert("error"@.len() == 5);
    assert("method"@[0] != "params"@[0]);
    assert("method"@[0] != "result"@[0]);
    assert("params"@[0] != "result"@[0]);
}

/// Messages are understood on the other side. The answer to a request is routed to
/// whoever waits under the id of the request, with the result that was answered; a
/// request is answered under its own id; a notification is recognized as one.
pub proof fn both_sides_understand_each_other(
    id: i64,
    method: Seq<char>,
    params: JsonView,
    result: JsonView,
)
    ensures
        routed(reply_json(json::integer_json(id as int), result)) == (IncomingView::Response {
            id: id as int,
            outcome: Ok(result),
        }),
        routed(request_json(id, method, params)) matches IncomingView::ServerRequest { reply }
            && routed(reply) == (IncomingView::Response {
            id: id as int,
            outcome: Ok(default_response(method, Some(params))),
        }),
        routed(notification_json(method, params)) == (IncomingView::Notification { method }),
{
    broadcast use json::lemma_lookup_of_pushed;

    reveal_strlit("jsonrpc");
    reveal_strlit("id");
    reveal_strlit("method");
    reveal_strlit("params");
    reveal_strlit("result");
    reveal_strlit("error");
    assert("jsonrpc"@.len() == 7);
    assert("id"@.len() == 2);
    assert("method"@.len() == 6);
    assert("params"@.len() == 6);
    assert("result"@.len() == 6);
    assert("error"@.len() == 5);
    assert("method"@[0] != "params"@[0]);
    assert("method"@[0] != "result"@[0]);
    assert("params"@[0] != "result"@[0]);
    let n = json::integer_json(id as int);
    assert(n.integer() == Some(id as int));
    let reply = reply_json(n, result);
    assert(reply.get("id"@) == Some(n));
    assert(reply.get("result"@) == Some(result));
    assert(reply.get("error"@) is None);
    let request = request_json(id, method, params);
    assert(request.get("id"@) == Some(n));
    assert(request.get("result"@) is None);
    assert(request.get("error"@) is None);
    assert(request.get_text("method"@) == Some(method));
    assert(request.get("params"@) == Some(params));
    let answer = default_response(method, Some(params));
    let told = reply_json(n, answer);
    assert(told.get("id"@) == Some(n));
    assert(told.get("result"@) == Some(answer));
    assert(told.get("error"@) is None);
    let notification = notification_json(method, params);
    assert(notification.get("id"@) is None);
    assert(notification.get_text("method"@) == Some(method));
}

/// An error of the server reaches whoever waits, with its code and its message, even
/// where there is a result as well.
pub proof fn errors_reach_who_waits(
    msg: JsonView,
    id: int,
    error: JsonView,
    code: int,
    message: Seq<char>,
)
    requires
        msg.get("id"@) matches Some(v) && v.integer() == Some(id),
        msg.get("error"@) == Some(error),
        error.get("code"@) matches Some(c) && c.integer() == Some(code),
        error.get_text("message"@) == Some(message),
    ensures
        routed(msg) == (IncomingView::Response {
            id,
            outcome: Err(LspErrorView::Response { code: code as i64, message }),
        }),
{
}

/// A server that asks for settings is given one empty setting for each that it asks
/// for; one that asks to have an edit applied is told that it is; any other gets
/// nothing.
pub proof fn servers_get_the_answers_that_they_expect(
    method: Seq<char>,
    params: JsonView,
    items: Seq<JsonView>,
)
    ensures
        params.get("items"@) == Some(JsonView::Array(items)) ==> (default_response(
            "workspace/configuration"@,
            Some(params),
        ) matches JsonView::Array(settings) && settings.len() == items.len() && forall|i: int|
            0 <= i < settings.len() ==> (#[trigger] settings[i]) == JsonView::Null),
        default_response("workspace/applyEdit"@, Some(params)).get("applied"@) == Some(
            JsonView::Bool(true),
        ),
        method != "workspace/configuration"@ && method != "workspace/applyEdit"@
            ==> default_response(method, Some(params)) == JsonView::Null,
{
    broadcast use json::lemma_lookup_of_pushed;

    reveal_strlit("workspace/configuration");
    reveal_strlit("workspace/applyEdit");
    reveal_strlit("applied");
    assert("workspace/configuration"@.len() == 23);
    assert("workspace/applyEdit"@.len() == 19);
    assert("applied"@.len() == 7);
}

} // verus!

//! JSON values.
//!
//! The values that travel to and from language servers and clients. An object is
//! a list of members in the order they were put in.
use vstd::prelude::*;

use crate::text;
use crate::text::same_text;

pub mod wire;

verus! {

/// A JSON number. The integers that fit into 64 bits are held as such, every
/// other number as the text it was written as.
#[derive(Debug, Clone, PartialEq, Eq)]
pub enum Number {
    /// An integer of at least zero.
    Unsigned(u64),
    /// An integer below zero.
    Negative(i64),
    /// Any other number.
    Other(String),
}

/// A JSON value.
#[derive(Debug, PartialEq, Eq)]
pub enum Json {
    /// `null`.
    Null,
    /// `true` or `false`.
    Bool(bool),
    /// A number.
    Number(Number),
    /// A string.
    Text(String),
    /// A list.
    Array(Vec<Json>),
    /// Members in order.
    Object(Vec<(String, Json)>),
}

/// What a [`Number`] says.
pub enum NumberView {
    Unsigned(u64),
    Negative(i64),
    Other(Seq<char>),
}

/// What a [`Json`] value says.
pub enum JsonView {
    Null,
    Bool(bool),
    Number(NumberView),
    Text(Seq<char>),
    Array(Seq<JsonView>),
    Object(Seq<(Seq<char>, JsonView)>),
}

impl View for Number {
    type V = NumberView;

    open spec fn view(&self) -> NumberView {
        match self {
            Number::Unsigned(n) => NumberView::Unsigned(*n),
            Number::Negative(n) => NumberView::Negative(*n),
            Number::Other(s) => NumberView::Other(s@),
        }
    }
}

/// What a JSON value says.
pub open spec fn json_view(j: Json) -> JsonView
    decreases j,
{
    match j {
        Json::Null => JsonView::Null,
        Json::Bool(b) => JsonView::Bool(b),
        Json::Number(n) => JsonView::Number(n@),
        Json::Text(s) => JsonView::Text(s@),
        Json::Array(v) => JsonView::Array(
            Seq::new(
                v@.len(),
                |i: int|
                    if 0 <= i < v@.len() {
                        json_view(v@[i])
                    } else {
                        JsonView::Null
                    },
            ),
        ),
        Json::Object(v) => JsonView::Object(
            Seq::new(
                v@.len(),
                |i: int|
                    if 0 <= i < v@.len() {
                        (v@[i].0@, json_view(v@[i].1))
                    } else {
                        (seq![], JsonView::Null)
                    },
            ),
        ),
    }
}

impl View for Json {
    type V = JsonView;

    open spec fn view(&self) -> JsonView {
        json_view(*self)
    }
}

/// What a list of values says.
pub open spec fn json_views(v: Seq<Json>) -> Seq<JsonView> {
    v.map_values(|j: Json| j@)
}

/// What a list of members says.
pub open spec fn member_views(v: Seq<(String, Json)>) -> Seq<(Seq<char>, JsonView)> {
    v.map_values(|m: (String, Json)| (m.0@, m.1@))
}

/// A list says what its items say.
pub proof fn lemma_array_view(v: Vec<Json>)
    ensures
        Json::Array(v)@ == JsonView::Array(json_views(v@)),
{
    assert(Json::Array(v)@->Array_0 =~= json_views(v@));
}

/// An object says what its members say.
pub proof fn lemma_object_view(v: Vec<(String, Json)>)
    ensures
        Json::Object(v)@ == JsonView::Object(member_views(v@)),
{
    assert(Json::Object(v)@->Object_0 =~= member_views(v@));
}

// ---------------------------------------------------------------------------
// Reading
// ---------------------------------------------------------------------------

/// The value of the first member with a key.
pub open spec fn lookup(members: Seq<(Seq<char>, JsonView)>, key: Seq<char>) -> Option<JsonView>
    decreases members.len(),
{
    if members.len() == 0 {
        None
    } else if members[0].0 == key {
        Some(members[0].1)
    } else {
        lookup(members.skip(1), key)
    }
}

impl JsonView {
    /// The member of an object.
    pub open spec fn get(self, key: Seq<char>) -> Option<JsonView> {
        match self {
            JsonView::Object(members) => lookup(members, key),
            _ => None,
        }
    }

    /// The text of a string.
    pub open spec fn text(self) -> Option<Seq<char>> {
        match self {
            JsonView::Text(s) => Some(s),
            _ => None,
        }
    }

    /// The truth value of a Boolean.
    pub open spec fn truth(self) -> Option<bool> {
        match self {
            JsonView::Bool(b) => Some(b),
            _ => None,
        }
    }

    /// The value of an integer of at least zero.
    pub open spec fn unsigned(self) -> Option<u64> {
        match self {
            JsonView::Number(NumberView::Unsigned(n)) => Some(n),
            _ => None,
        }
    }

    /// The items of a list.
    pub open spec fn items(self) -> Option<Seq<JsonView>> {
        match self {
            JsonView::Array(v) => Some(v),
            _ => None,
        }
    }

    /// The text of a member that is a string.
    pub open spec fn get_text(self, key: Seq<char>) -> Option<Seq<char>> {
        match self.get(key) {
            Some(v) => v.text(),
            None => None,
        }
    }
}

/// The member of a member.
pub open spec fn inner(v: Option<JsonView>, key: Seq<char>) -> Option<JsonView> {
    match v {
        Some(v) => v.get(key),
        None => None,
    }
}

/// The value of the first member with a key.
pub fn member<'a>(members: &'a Vec<(String, Json)>, key: &str) -> (r: Option<&'a Json>)
    ensures
        r is Some == lookup(member_views(members@), key@) is Some,
        r matches Some(j) ==> Some(j@) == lookup(member_views(members@), key@),
{
    let ghost all = member_views(members@);
    let mut i: usize = 0;
    assert(all.skip(0) =~= all);
    while i < members.len()
        invariant
            i <= members@.len(),
            all == member_views(members@),
            lookup(all, key@) == lookup(all.skip(i as int), key@),
        decreases members@.len() - i,
    {
        assert(all.skip(i as int)[0] == (members@[i as int].0@, members@[i as int].1@));
        assert(all.skip(i as int).skip(1) =~= all.skip(i + 1));
        if same_text(members[i].0.as_str(), key) {
            return Some(&members[i].1);
        }
        i += 1;
    }
    None
}

impl Json {
    /// The member `key` of an object.
    pub fn get(&self, key: &str) -> (r: Option<&Json>)
        ensures
            r is Some == self@.get(key@) is Some,
            r matches Some(j) ==> Some(j@) == self@.get(key@),
    {
        match self {
            Json::Object(members) => {
                proof {
                    lemma_object_view(*members);
                }
                member(members, key)
            },
            _ => None,
        }
    }

    /// The text of a string.
    pub fn as_str(&self) -> (r: Option<&str>)
        ensures
            r is Some == self@.text() is Some,
            r matches Some(s) ==> Some(s@) == self@.text(),
    {
        match self {
            Json::Text(s) => Some(s.as_str()),
            _ => None,
        }
    }

    /// The truth value of a Boolean.
    pub fn as_bool(&self) -> (r: Option<bool>)
        ensures
            r == self@.truth(),
    {
        match self {
            Json::Bool(b) => Some(*b),
            _ => None,
        }
    }

    /// The value of an integer of at least zero.
    pub fn as_u64(&self) -> (r: Option<u64>)
        ensures
            r == self@.unsigned(),
    {
        match self {
            Json::Number(Number::Unsigned(n)) => Some(*n),
            _ => None,
        }
    }

    /// The items of a list.
    pub fn as_array(&self) -> (r: Option<&Vec<Json>>)
        ensures
            r is Some == self@.items() is Some,
            r matches Some(v) ==> Some(json_views(v@)) == self@.items(),
    {
        match self {
            Json::Array(v) => {
                proof {
                    lemma_array_view(*v);
                }
                Some(v)
            },
            _ => None,
        }
    }

    /// The text of the member `key`, where it is a string.
    pub fn get_str(&self, key: &str) -> (r: Option<&str>)
        ensures
            r is Some == self@.get_text(key@) is Some,
            r matches Some(s) ==> Some(s@) == self@.get_text(key@),
    {
        match self.get(key) {
            Some(v) => v.as_str(),
            None => None,
        }
    }

    /// Whether the value is `null`.
    pub fn is_null(&self) -> (r: bool)
        ensures
            r == (self@ == JsonView::Null),
    {
        match self {
            Json::Null => true,
            _ => false,
        }
    }

    /// A value that says the same.
    pub fn copy(&self) -> (r: Json)
        ensures
            r@ == self@,
        decreases self,
    {
        match self {
            Json::Null => Json::Null,
            Json::Bool(b) => Json::Bool(*b),
            Json::Number(n) => Json::Number(n.copy()),
            Json::Text(s) => Json::Text(s.clone()),
            Json::Array(v) => {
                let mut out: Vec<Json> = Vec::new();
                let mut i: usize = 0;
                while i < v.len()
                    invariant
                        i <= v@.len(),
                        *self == Json::Array(*v),
                        json_views(out@) == json_views(v@).take(i as int),
                    decreases v@.len() - i,
                {
                    let ghost before = json_views(out@);
                    assert(decreases_to!(*self => self->Array_0));
                    assert(decreases_to!(*v => v@));
                    assert(decreases_to!(v@ => v@[i as int]));
                    out.push(v[i].copy());
                    proof {
                        assert(json_views(out@) =~= before.push(json_views(v@)[i as int]));
                        assert(json_views(v@).take(i + 1) =~= json_views(v@).take(i as int).push(
                            json_views(v@)[i as int],
                        ));
                    }
                    i += 1;
                }
                proof {
                    assert(json_views(v@).take(i as int) =~= json_views(v@));
                    lemma_array_view(*v);
                    lemma_array_view(out);
                }
                Json::Array(out)
            },
            Json::Object(v) => {
                let mut out: Vec<(String, Json)> = Vec::new();
                let mut i: usize = 0;
                while i < v.len()
                    invariant
                        i <= v@.len(),
                        *self == Json::Object(*v),
                        member_views(out@) == member_views(v@).take(i as int),
                    decreases v@.len() - i,
                {
                    let ghost before = member_views(out@);
                    assert(decreases_to!(*self => self->Object_0));
                    assert(decreases_to!(*v => v@));
                    assert(decreases_to!(v@ => v@[i as int]));
                    assert(decreases_to!(v@[i as int] => v@[i as int].1));
                    out.push((v[i].0.clone(), v[i].1.copy()));
                    proof {
                        assert(member_views(out@) =~= before.push(member_views(v@)[i as int]));
                        assert(member_views(v@).take(i + 1) =~= member_views(v@).take(
                            i as int,
                        ).push(member_views(v@)[i as int]));
                    }
                    i += 1;
                }
                proof {
                    assert(member_views(v@).take(i as int) =~= member_views(v@));
                    lemma_object_view(*v);
                    lemma_object_view(out);
                }
                Json::Object(out)
            },
        }
    }
}

impl JsonView {
    /// The value of an integer that fits into 64 bits with a sign.
    pub open spec fn integer(self) -> Option<int> {
        match self {
            JsonView::Number(NumberView::Unsigned(n)) => if n <= i64::MAX {
                Some(n as int)
            } else {
                None
            },
            JsonView::Number(NumberView::Negative(n)) => Some(n as int),
            _ => None,
        }
    }
}

impl Json {
    /// The value of an integer that fits into 64 bits with a sign.
    pub fn as_i64(&self) -> (r: Option<i64>)
        ensures
            r is Some == self@.integer() is Some,
            r matches Some(n) ==> Some(n as int) == self@.integer(),
    {
        match self {
            Json::Number(Number::Unsigned(n)) => if *n <= i64::MAX as u64 {
                Some(*n as i64)
            } else {
                None
            },
            Json::Number(Number::Negative(n)) => Some(*n),
            _ => None,
        }
    }
}

impl Number {
    /// A number that says the same.
    pub fn copy(&self) -> (r: Number)
        ensures
            r@ == self@,
    {
        match self {
            Number::Unsigned(n) => Number::Unsigned(*n),
            Number::Negative(n) => Number::Negative(*n),
            Number::Other(s) => Number::Other(s.clone()),
        }
    }
}

// ---------------------------------------------------------------------------
// Building
// ---------------------------------------------------------------------------

/// The JSON value of an integer of at least zero.
pub open spec fn unsigned_json(n: u64) -> JsonView {
    JsonView::Number(NumberView::Unsigned(n))
}

/// The JSON value of an integer.
pub open spec fn integer_json(n: int) -> JsonView {
    if n >= 0 {
        JsonView::Number(NumberView::Unsigned(n as u64))
    } else {
        JsonView::Number(NumberView::Negative(n as i64))
    }
}

impl Json {
    /// The string `s`.
    pub fn text(s: &str) -> (r: Json)
        ensures
            r@ == JsonView::Text(s@),
    {
        Json::Text(s.to_owned())
    }

    /// The number `n`.
    pub fn unsigned(n: u64) -> (r: Json)
        ensures
            r@ == unsigned_json(n),
    {
        Json::Number(Number::Unsigned(n))
    }

    /// The number `n`.
    pub fn integer(n: i64) -> (r: Json)
        ensures
            r@ == integer_json(n as int),
    {
        if n >= 0 {
            Json::Number(Number::Unsigned(n as u64))
        } else {
            Json::Number(Number::Negative(n))
        }
    }

    /// The list of `items`.
    pub fn list(items: Vec<Json>) -> (r: Json)
        ensures
            r@ == JsonView::Array(json_views(items@)),
    {
        proof {
            lemma_array_view(items);
        }
        Json::Array(items)
    }

    /// The list of the strings in `items`.
    pub fn texts(items: &Vec<String>) -> (r: Json)
        ensures
            r@ == JsonView::Array(
                items@.map_values(|s: String| JsonView::Text(s@)),
            ),
    {
        let ghost want = items@.map_values(|s: String| JsonView::Text(s@));
        let mut out: Vec<Json> = Vec::new();
        let mut i: usize = 0;
        while i < items.len()
            invariant
                i <= items@.len(),
                want == items@.map_values(|s: String| JsonView::Text(s@)),
                json_views(out@) == want.take(i as int),
            decreases items@.len() - i,
        {
            let ghost before = json_views(out@);
            out.push(Json::Text(items[i].clone()));
            proof {
                assert(json_views(out@) =~= before.push(want[i as int]));
                assert(want.take(i + 1) =~= want.take(i as int).push(want[i as int]));
            }
            i += 1;
        }
        assert(want.take(i as int) =~= want);
        Json::list(out)
    }
}

/// An object without members, to which members are pushed.
pub open spec fn no_members() -> Seq<(Seq<char>, JsonView)> {
    Seq::empty()
}

/// A list without items, to which items are pushed.
pub open spec fn no_items() -> Seq<JsonView> {
    Seq::empty()
}

/// A list that is being put together.
pub struct Items {
    items: Vec<Json>,
}

impl View for Items {
    type V = Seq<JsonView>;

    closed spec fn view(&self) -> Seq<JsonView> {
        json_views(self.items@)
    }
}

impl Items {
    /// No items.
    pub fn new() -> (r: Items)
        ensures
            r@ == no_items(),
    {
        let r = Items { items: Vec::new() };
        assert(r@ =~= no_items());
        r
    }

    /// The items with one more at the end.
    pub fn with(self, item: Json) -> (r: Items)
        ensures
            r@ == self@.push(item@),
    {
        let ghost before = self@;
        let mut items = self.items;
        items.push(item);
        let r = Items { items };
        assert(r@ =~= before.push(item@));
        r
    }

    /// The list of these items.
    pub fn done(self) -> (r: Json)
        ensures
            r@ == JsonView::Array(self@),
    {
        Json::list(self.items)
    }
}

/// An object that is being put together.
pub struct Members {
    members: Vec<(String, Json)>,
}

impl View for Members {
    type V = Seq<(Seq<char>, JsonView)>;

    closed spec fn view(&self) -> Seq<(Seq<char>, JsonView)> {
        member_views(self.members@)
    }
}

/// The members once `key` has been given `value`: in the place that the key has,
/// or at the end.
pub open spec fn assigned(
    members: Seq<(Seq<char>, JsonView)>,
    key: Seq<char>,
    value: JsonView,
) -> Seq<(Seq<char>, JsonView)>
    decreases members.len(),
{
    if members.len() == 0 {
        seq![(key, value)]
    } else if members[0].0 == key {
        seq![(key, value)] + members.skip(1)
    } else {
        seq![members[0]] + assigned(members.skip(1), key, value)
    }
}

/// The members but for those with a key.
pub open spec fn without(members: Seq<(Seq<char>, JsonView)>, key: Seq<char>) -> Seq<
    (Seq<char>, JsonView),
>
    decreases members.len(),
{
    if members.len() == 0 {
        seq![]
    } else if members.last().0 == key {
        without(members.drop_last(), key)
    } else {
        without(members.drop_last(), key).push(members.last())
    }
}

impl Members {
    /// No members.
    pub fn new() -> (r: Members)
        ensures
            r@ == no_members(),
    {
        let r = Members { members: Vec::new() };
        assert(r@ =~= no_members());
        r
    }

    /// The members with one more at the end.
    pub fn with(self, key: &str, value: Json) -> (r: Members)
        ensures
            r@ == self@.push((key@, value@)),
    {
        let ghost before = self@;
        let mut members = self.members;
        members.push((key.to_owned(), value));
        let r = Members { members };
        assert(r@ =~= before.push((key@, value@)));
        r
    }

    /// The object with these members.
    pub fn done(self) -> (r: Json)
        ensures
            r@ == JsonView::Object(self@),
    {
        proof {
            lemma_object_view(self.members);
        }
        Json::Object(self.members)
    }

    /// Gives `key` a value: in the place that the key has, or at the end.
    pub fn set(&mut self, key: &str, value: Json)
        ensures
            final(self)@ == assigned(old(self)@, key@, value@),
    {
        let ghost all = self@;
        let ghost v = value@;
        let mut i: usize = 0;
        assert(all.skip(0) =~= all);
        assert(all.take(0) + assigned(all.skip(0), key@, v) =~= assigned(all, key@, v));
        while i < self.members.len()
            invariant
                i <= self.members@.len(),
                self.members@ == old(self).members@,
                all == old(self)@,
                v == value@,
                assigned(all, key@, v) == all.take(i as int) + assigned(
                    all.skip(i as int),
                    key@,
                    v,
                ),
            decreases self.members@.len() - i,
        {
            let ghost rest = all.skip(i as int);
            assert(rest[0] == (self.members@[i as int].0@, self.members@[i as int].1@));
            if same_text(self.members[i].0.as_str(), key) {
                self.members.set(i, (key.to_owned(), value));
                assert(self@ =~= all.take(i as int) + (seq![(key@, v)] + rest.skip(1)));
                return;
            }
            proof {
                assert(rest.skip(1) =~= all.skip(i + 1));
                assert(all.take(i as int) + (seq![rest[0]] + assigned(all.skip(i + 1), key@, v))
                    =~= all.take(i + 1) + assigned(all.skip(i + 1), key@, v));
            }
            i += 1;
        }
        self.members.push((key.to_owned(), value));
        assert(all.skip(i as int) =~= seq![]);
        assert(self@ =~= all.take(i as int) + seq![(key@, v)]);
    }

    /// The members that `json` has as an object; none where it is none.
    pub fn of(json: &Json) -> (r: Members)
        ensures
            r@ == match json@ {
                JsonView::Object(members) => members,
                _ => no_members(),
            },
    {
        match json.copy() {
            Json::Object(members) => {
                proof {
                    lemma_object_view(members);
                }
                Members { members }
            },
            _ => Members::new(),
        }
    }

    /// Takes out the members with a key.
    pub fn remove(&mut self, key: &str)
        ensures
            final(self)@ == without(old(self)@, key@),
    {
        let ghost all = self@;
        let mut out: Vec<(String, Json)> = Vec::new();
        let mut i: usize = 0;
        assert(all.take(0) =~= seq![]);
        assert(member_views(out@) =~= seq![]);
        while i < self.members.len()
            invariant
                i <= self.members@.len(),
                self.members@ == old(self).members@,
                all == old(self)@,
                member_views(out@) == without(all.take(i as int), key@),
            decreases self.members@.len() - i,
        {
            proof {
                let now = all.take(i + 1);
                assert(now.drop_last() =~= all.take(i as int));
                assert(now.last() == (self.members@[i as int].0@, self.members@[i as int].1@));
            }
            if !same_text(self.members[i].0.as_str(), key) {
                let ghost before = member_views(out@);
                out.push((self.members[i].0.clone(), self.members[i].1.copy()));
                assert(member_views(out@) =~= before.push(all[i as int]));
            }
            i += 1;
        }
        assert(all.take(i as int) =~= all);
        self.members = out;
    }
}

// ---------------------------------------------------------------------------
// The order of keys
// ---------------------------------------------------------------------------

/// Whether members are in the order of their keys, no key twice.
pub open spec fn ordered(members: Seq<(Seq<char>, JsonView)>) -> bool {
    forall|i: int, j: int|
        0 <= i < j < members.len() ==> text::text_before(
            (#[trigger] members[i]).0,
            (#[trigger] members[j]).0,
        )
}

/// Whether no key is given twice.
pub open spec fn distinct(members: Seq<(Seq<char>, JsonView)>) -> bool {
    forall|i: int, j: int|
        0 <= i < j < members.len() ==> (#[trigger] members[i]).0 != (#[trigger] members[j]).0
}

/// A member put in its place among ordered members, where one with its key gives
/// way.
pub open spec fn put(
    members: Seq<(Seq<char>, JsonView)>,
    member: (Seq<char>, JsonView),
) -> Seq<(Seq<char>, JsonView)>
    decreases members.len(),
{
    if members.len() == 0 || text::text_before(members.last().0, member.0) {
        members.push(member)
    } else if members.last().0 == member.0 {
        members.drop_last().push(member)
    } else {
        put(members.drop_last(), member).push(members.last())
    }
}

/// Members in the order of their keys; of several with one key, the last.
pub open spec fn by_key(members: Seq<(Seq<char>, JsonView)>) -> Seq<(Seq<char>, JsonView)>
    decreases members.len(),
{
    if members.len() == 0 {
        members
    } else {
        put(by_key(members.drop_last()), members.last())
    }
}

/// A value with the members of all its objects in the order of their keys.
pub open spec fn in_order(value: JsonView) -> JsonView
    decreases value,
{
    match value {
        JsonView::Array(items) => JsonView::Array(items_in_order(items)),
        JsonView::Object(members) => JsonView::Object(by_key(values_in_order(members))),
        other => other,
    }
}

/// Items with the members of all their objects in the order of their keys.
pub open spec fn items_in_order(items: Seq<JsonView>) -> Seq<JsonView>
    decreases items,
{
    Seq::new(
        items.len(),
        |i: int|
            if 0 <= i < items.len() {
                in_order(items[i])
            } else {
                JsonView::Null
            },
    )
}

/// Members with the members of all objects in their values in the order of their
/// keys.
pub open spec fn values_in_order(members: Seq<(Seq<char>, JsonView)>) -> Seq<
    (Seq<char>, JsonView),
>
    decreases members,
{
    Seq::new(
        members.len(),
        |i: int|
            if 0 <= i < members.len() {
                (members[i].0, in_order(members[i].1))
            } else {
                (seq![], JsonView::Null)
            },
    )
}

/// Whether the members of all objects in a value are in the order of their keys.
pub open spec fn is_in_order(value: JsonView) -> bool
    decreases value,
{
    match value {
        JsonView::Array(items) => forall|i: int|
            0 <= i < items.len() ==> is_in_order(#[trigger] items[i]),
        JsonView::Object(members) => ordered(members) && forall|i: int|
            0 <= i < members.len() ==> is_in_order((#[trigger] members[i]).1),
        _ => true,
    }
}

/// Members of which none has a key do not give it.
proof fn lemma_lookup_none(members: Seq<(Seq<char>, JsonView)>, key: Seq<char>)
    requires
        forall|i: int| 0 <= i < members.len() ==> (#[trigger] members[i]).0 != key,
    ensures
        lookup(members, key) is None,
    decreases members.len(),
{
    if members.len() > 0 {
        let rest = members.skip(1);
        assert forall|i: int| 0 <= i < rest.len() implies (#[trigger] rest[i]).0 != key by {
            assert(rest[i] == members[i + 1]);
        }
        lemma_lookup_none(rest, key);
    }
}

/// The member with a key, among members of which one has been added.
pub proof fn lemma_lookup_pushed(
    members: Seq<(Seq<char>, JsonView)>,
    last: (Seq<char>, JsonView),
    key: Seq<char>,
)
    ensures
        lookup(members.push(last), key) == match lookup(members, key) {
            Some(v) => Some(v),
            None => if last.0 == key {
                Some(last.1)
            } else {
                None
            },
        },
    decreases members.len(),
{
    let more = members.push(last);
    if members.len() == 0 {
        assert(lookup(more.skip(1), key) is None);
    } else {
        assert(more.skip(1) =~= members.skip(1).push(last));
        lemma_lookup_pushed(members.skip(1), last, key);
    }
}

/// The member with a key, among members of which one has been added.
pub broadcast proof fn lemma_lookup_of_pushed(
    members: Seq<(Seq<char>, JsonView)>,
    last: (Seq<char>, JsonView),
    key: Seq<char>,
)
    ensures
        #[trigger] lookup(members.push(last), key) == match lookup(members, key) {
            Some(v) => Some(v),
            None => if last.0 == key {
                Some(last.1)
            } else {
                None
            },
        },
{
    lemma_lookup_pushed(members, last, key);
}

/// Putting a member in its place keeps the order, and changes what its key gives
/// and nothing else.
proof fn lemma_put(members: Seq<(Seq<char>, JsonView)>, member: (Seq<char>, JsonView))
    requires
        ordered(members),
    ensures
        ordered(put(members, member)),
        forall|k: int|
            0 <= k < put(members, member).len() ==> (#[trigger] put(members, member)[k]).0
                == member.0 || exists|j: int|
                0 <= j < members.len() && (#[trigger] members[j]).0 == put(members, member)[k].0,
        forall|key: Seq<char>| #[trigger]
            lookup(put(members, member), key) == if key == member.0 {
                Some(member.1)
            } else {
                lookup(members, key)
            },
    decreases members.len(),
{
    let r = put(members, member);
    if members.len() == 0 || text::text_before(members.last().0, member.0) {
        lemma_put_behind(members, member);
    } else {
        let front = members.drop_last();
        let last = members.last();
        assert(members =~= front.push(last));
        text::lemma_text_before_total(last.0, member.0);
        if last.0 == member.0 {
            assert forall|i: int| 0 <= i < front.len() implies text::text_before(
                (#[trigger] front[i]).0,
                member.0,
            ) by {
                assert(front[i] == members[i]);
                assert(last == members[members.len() - 1]);
            }
            if front.len() > 0 {
                assert(front.last() == front[front.len() - 1]);
            }
            lemma_put_behind(front, member);
            assert forall|key: Seq<char>| #[trigger] lookup(r, key) == if key == member.0 {
                Some(member.1)
            } else {
                lookup(members, key)
            } by {
                lemma_lookup_pushed(front, last, key);
            }
        } else {
            lemma_put(front, member);
            let before = put(front, member);
            assert forall|k: int| 0 <= k < before.len() implies text::text_before(
                (#[trigger] before[k]).0,
                last.0,
            ) by {
                if before[k].0 != member.0 {
                    let j = choose|j: int|
                        0 <= j < front.len() && (#[trigger] front[j]).0 == before[k].0;
                    assert(front[j] == members[j]);
                    assert(last == members[members.len() - 1]);
                }
            }
            assert forall|key: Seq<char>| #[trigger] lookup(r, key) == if key == member.0 {
                Some(member.1)
            } else {
                lookup(members, key)
            } by {
                lemma_lookup_pushed(before, last, key);
                lemma_lookup_pushed(front, last, key);
            }
        }
    }
}

/// The same for a member that belongs behind all others.
proof fn lemma_put_behind(members: Seq<(Seq<char>, JsonView)>, member: (Seq<char>, JsonView))
    requires
        ordered(members),
        members.len() == 0 || text::text_before(members.last().0, member.0),
    ensures
        ordered(members.push(member)),
        forall|key: Seq<char>| #[trigger]
            lookup(members.push(member), key) == if key == member.0 {
                Some(member.1)
            } else {
                lookup(members, key)
            },
{
    assert forall|i: int| 0 <= i < members.len() implies text::text_before(
        (#[trigger] members[i]).0,
        member.0,
    ) by {
        if i < members.len() - 1 {
            text::lemma_text_before_transitive(
                members[i].0,
                members[members.len() - 1].0,
                member.0,
            );
        }
    }
    assert forall|i: int| 0 <= i < members.len() implies (#[trigger] members[i]).0
        != member.0 by {
        text::lemma_text_before_irreflexive(member.0);
    }
    lemma_lookup_none(members, member.0);
    assert forall|key: Seq<char>| #[trigger] lookup(members.push(member), key) == if key
        == member.0 {
        Some(member.1)
    } else {
        lookup(members, key)
    } by {
        lemma_lookup_pushed(members, member, key);
    }
}

/// Members put in order are in order, and give the same as before, where no key is
/// given twice.
proof fn lemma_by_key(members: Seq<(Seq<char>, JsonView)>)
    ensures
        ordered(by_key(members)),
        distinct(members) ==> forall|key: Seq<char>| #[trigger]
            lookup(by_key(members), key) == lookup(members, key),
    decreases members.len(),
{
    if members.len() > 0 {
        let front = members.drop_last();
        let last = members.last();
        lemma_by_key(front);
        lemma_put(by_key(front), last);
        if distinct(members) {
            assert forall|i: int| 0 <= i < front.len() implies (#[trigger] front[i]).0
                != last.0 by {
                assert(members[i].0 != members[members.len() - 1].0);
            }
            lemma_lookup_none(front, last.0);
            assert forall|key: Seq<char>| #[trigger] lookup(by_key(members), key) == lookup(
                members,
                key,
            ) by {
                assert(members =~= front.push(last));
                lemma_lookup_pushed(front, last, key);
                assert(lookup(by_key(front), key) == lookup(front, key));
            }
        }
    }
}

/// Members in order are left alone.
proof fn lemma_ordered_by_key(members: Seq<(Seq<char>, JsonView)>)
    requires
        ordered(members),
    ensures
        by_key(members) == members,
    decreases members.len(),
{
    if members.len() > 0 {
        let front = members.drop_last();
        lemma_ordered_by_key(front);
        if front.len() > 0 {
            assert(text::text_before(
                members[members.len() - 2].0,
                members[members.len() - 1].0,
            ));
            assert(front.last() == members[members.len() - 2]);
        }
        assert(front.push(members.last()) =~= members);
    }
}

/// A value that is in order is left alone.
pub proof fn ordered_values_are_left_alone(value: JsonView)
    requires
        is_in_order(value),
    ensures
        in_order(value) == value,
    decreases value,
{
    match value {
        JsonView::Array(items) => {
            assert forall|i: int| 0 <= i < items.len() implies in_order(#[trigger] items[i])
                == items[i] by {
                ordered_values_are_left_alone(items[i]);
            }
            assert(items_in_order(items) =~= items);
        },
        JsonView::Object(members) => {
            assert forall|i: int| 0 <= i < members.len() implies in_order(
                (#[trigger] members[i]).1,
            ) == members[i].1 by {
                ordered_values_are_left_alone(members[i].1);
            }
            assert(values_in_order(members) =~= members);
            lemma_ordered_by_key(members);
        },
        _ => {},
    }
}

/// An object in order gives under every key what it gave before, in order, where no
/// key is given twice.
pub proof fn fields_outlast_the_order(members: Seq<(Seq<char>, JsonView)>, key: Seq<char>)
    requires
        distinct(members),
    ensures
        in_order(JsonView::Object(members)).get(key) == match JsonView::Object(members).get(key) {
            Some(v) => Some(in_order(v)),
            None => None,
        },
{
    let inner = values_in_order(members);
    assert(distinct(inner)) by {
        assert forall|i: int, j: int| 0 <= i < j < inner.len() implies (#[trigger] inner[i]).0 != (
        #[trigger] inner[j]).0 by {
            assert(members[i].0 != members[j].0);
        }
    }
    lemma_by_key(inner);
    lemma_lookup_mapped(members, inner, key);
}

/// The member with a key, among members whose values have been put in order.
proof fn lemma_lookup_mapped(
    members: Seq<(Seq<char>, JsonView)>,
    inner: Seq<(Seq<char>, JsonView)>,
    key: Seq<char>,
)
    requires
        inner.len() == members.len(),
        forall|i: int|
            0 <= i < members.len() ==> #[trigger] inner[i] == (
                members[i].0,
                in_order(members[i].1),
            ),
    ensures
        lookup(inner, key) == match lookup(members, key) {
            Some(v) => Some(in_order(v)),
            None => None,
        },
    decreases members.len(),
{
    if members.len() > 0 {
        assert(inner[0] == (members[0].0, in_order(members[0].1)));
        let rest = members.skip(1);
        let more = inner.skip(1);
        assert forall|i: int| 0 <= i < rest.len() implies #[trigger] more[i] == (
            rest[i].0,
            in_order(rest[i].1),
        ) by {
            assert(more[i] == inner[i + 1]);
        }
        lemma_lookup_mapped(rest, more, key);
    }
}

/// A member that is given a value has that value, one that is taken away is gone, and
/// all other members are as they were.
pub proof fn members_are_given_and_taken(
    members: Seq<(Seq<char>, JsonView)>,
    key: Seq<char>,
    value: JsonView,
    other: Seq<char>,
)
    ensures
        lookup(assigned(members, key, value), key) == Some(value),
        lookup(without(members, key), key) is None,
        other != key ==> lookup(assigned(members, key, value), other) == lookup(members, other)
            && lookup(without(members, key), other) == lookup(members, other),
{
    lemma_lookup_assigned(members, key, value, key);
    lemma_lookup_assigned(members, key, value, other);
    lemma_lookup_without(members, key, key);
    lemma_lookup_without(members, key, other);
}

/// What is found among members once a key has been given a value.
proof fn lemma_lookup_assigned(
    members: Seq<(Seq<char>, JsonView)>,
    key: Seq<char>,
    value: JsonView,
    other: Seq<char>,
)
    ensures
        lookup(assigned(members, key, value), other) == if other == key {
            Some(value)
        } else {
            lookup(members, other)
        },
    decreases members.len(),
{
    let all = assigned(members, key, value);
    if members.len() == 0 {
        assert(all[0] == (key, value));
        assert(lookup(all.skip(1), other) is None);
    } else if members[0].0 == key {
        assert(all[0] == (key, value));
        assert(all.skip(1) =~= members.skip(1));
        assert(lookup(all, other) == if other == key {
            Some(value)
        } else {
            lookup(members.skip(1), other)
        });
    } else {
        lemma_lookup_assigned(members.skip(1), key, value, other);
        assert(all[0] == members[0]);
        assert(all.skip(1) =~= assigned(members.skip(1), key, value));
    }
}

/// What is found among members once a key has been taken away.
proof fn lemma_lookup_without(
    members: Seq<(Seq<char>, JsonView)>,
    key: Seq<char>,
    other: Seq<char>,
)
    ensures
        lookup(without(members, key), other) == if other == key {
            None
        } else {
            lookup(members, other)
        },
    decreases members.len(),
{
    if members.len() > 0 {
        let front = members.drop_last();
        lemma_lookup_without(front, key, other);
        assert(members =~= front.push(members.last()));
        lemma_lookup_pushed(front, members.last(), other);
        if members.last().0 != key {
            lemma_lookup_pushed(without(front, key), members.last(), other);
        }
    }
}

} // verus!

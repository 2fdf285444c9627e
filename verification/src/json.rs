//! JSON values as the language server and the search services send them.
use crate::text::same_text;
use vstd::prelude::*;
use vstd::string::*;

verus! {

/// A JSON value.
///
/// A number is held as the integer it is, or, where it is no integer of 64
/// bits, as its JSON text. The members of an object stand in the order in
/// which the object is walked.
#[derive(Debug, PartialEq, Eq)]
pub enum Json {
    Null,
    Bool(bool),
    PosInt(u64),
    NegInt(i64),
    Float(String),
    Str(String),
    Array(Vec<Json>),
    Object(Vec<(String, Json)>),
}

/// What a [`Json`] value holds.
pub enum JsonView {
    Null,
    Bool(bool),
    PosInt(u64),
    NegInt(i64),
    Float(Seq<char>),
    Str(Seq<char>),
    Array(Seq<JsonView>),
    Object(Seq<(Seq<char>, JsonView)>),
}

impl Json {
    /// What this value holds.
    pub open spec fn as_view(self) -> JsonView
        decreases self,
    {
        match self {
            Json::Null => JsonView::Null,
            Json::Bool(b) => JsonView::Bool(b),
            Json::PosInt(n) => JsonView::PosInt(n),
            Json::NegInt(n) => JsonView::NegInt(n),
            Json::Float(s) => JsonView::Float(s@),
            Json::Str(s) => JsonView::Str(s@),
            Json::Array(items) => JsonView::Array(
                Seq::new(
                    items@.len(),
                    |i: int|
                        if 0 <= i < items@.len() {
                            items@[i].as_view()
                        } else {
                            JsonView::Null
                        },
                ),
            ),
            Json::Object(members) => JsonView::Object(
                Seq::new(
                    members@.len(),
                    |i: int|
                        if 0 <= i < members@.len() {
                            (members@[i].0@, members@[i].1.as_view())
                        } else {
                            (Seq::empty(), JsonView::Null)
                        },
                ),
            ),
        }
    }
}

impl View for Json {
    type V = JsonView;

    open spec fn view(&self) -> JsonView {
        self.as_view()
    }
}

/// What a [`Json`] value behind an optional reference holds.
pub open spec fn opt_view(v: Option<&Json>) -> Option<JsonView> {
    match v {
        Some(j) => Some(j@),
        None => None,
    }
}

/// What some [`Json`] values hold.
pub open spec fn views(v: Seq<Json>) -> Seq<JsonView> {
    v.map_values(|j: Json| j@)
}

/// What the members of an object hold.
pub open spec fn member_views(v: Seq<(String, Json)>) -> Seq<(Seq<char>, JsonView)> {
    v.map_values(|m: (String, Json)| (m.0@, m.1@))
}

/// The value of the first of `members` whose key is `key`.
pub open spec fn lookup(members: Seq<(Seq<char>, JsonView)>, key: Seq<char>) -> Option<JsonView>
    decreases members.len(),
{
    if members.len() == 0 {
        None
    } else if members[0].0 == key {
        Some(members[0].1)
    } else {
        lookup(members.skip(1), key)
    }
}

impl JsonView {
    /// The member `key` of an object; nothing for any other value.
    pub open spec fn member(self, key: Seq<char>) -> Option<JsonView> {
        match self {
            JsonView::Object(members) => lookup(members, key),
            _ => None,
        }
    }

    /// The member `b` of the member `a`.
    pub open spec fn member2(self, a: Seq<char>, b: Seq<char>) -> Option<JsonView> {
        match self.member(a) {
            Some(v) => v.member(b),
            None => None,
        }
    }

    /// The text of a string.
    pub open spec fn text(self) -> Option<Seq<char>> {
        match self {
            JsonView::Str(s) => Some(s),
            _ => None,
        }
    }

    /// The number, where it is an integer from -2^63 to 2^63 - 1.
    pub open spec fn integer(self) -> Option<int> {
        match self {
            JsonView::PosInt(n) => if n <= i64::MAX {
                Some(n as int)
            } else {
                None
            },
            JsonView::NegInt(n) => Some(n as int),
            _ => None,
        }
    }

    /// The number, where it is an integer from 0 to 2^64 - 1.
    pub open spec fn natural(self) -> Option<nat> {
        match self {
            JsonView::PosInt(n) => Some(n as nat),
            _ => None,
        }
    }

    /// The truth value.
    pub open spec fn boolean(self) -> Option<bool> {
        match self {
            JsonView::Bool(b) => Some(b),
            _ => None,
        }
    }

    /// The items of an array.
    pub open spec fn items(self) -> Option<Seq<JsonView>> {
        match self {
            JsonView::Array(items) => Some(items),
            _ => None,
        }
    }

    /// The members of an object.
    pub open spec fn members(self) -> Option<Seq<(Seq<char>, JsonView)>> {
        match self {
            JsonView::Object(members) => Some(members),
            _ => None,
        }
    }
}

/// The text of the member `key` of `v`.
pub open spec fn text_member(v: JsonView, key: Seq<char>) -> Option<Seq<char>> {
    match v.member(key) {
        Some(m) => m.text(),
        None => None,
    }
}

/// The integer that is the member `key` of `v`.
pub open spec fn int_member(v: JsonView, key: Seq<char>) -> Option<int> {
    match v.member(key) {
        Some(m) => m.integer(),
        None => None,
    }
}

/// The integer that is the member `b` of the member `a` of `v`, or `default`.
pub open spec fn int_at(v: JsonView, a: Seq<char>, b: Seq<char>, default: int) -> int {
    match v.member2(a, b) {
        Some(m) => match m.integer() {
            Some(n) => n,
            None => default,
        },
        None => default,
    }
}

/// The natural number that is the member `b` of the member `a` of `v`.
pub open spec fn uint_at(v: JsonView, a: Seq<char>, b: Seq<char>) -> Option<nat> {
    match v.member2(a, b) {
        Some(m) => m.natural(),
        None => None,
    }
}

/// The items of the array that is the member `key` of `v`.
pub open spec fn items_member(v: JsonView, key: Seq<char>) -> Option<Seq<JsonView>> {
    match v.member(key) {
        Some(m) => m.items(),
        None => None,
    }
}

/// `n` where there is one, else `default`.
pub open spec fn nat_or(n: Option<nat>, default: nat) -> nat {
    match n {
        Some(k) => k,
        None => default,
    }
}

/// `s` where there is one, else the empty text.
pub open spec fn text_or_empty(s: Option<Seq<char>>) -> Seq<char> {
    match s {
        Some(t) => t,
        None => Seq::empty(),
    }
}

/// The view of an array's items, as the views of the items.
pub proof fn lemma_array_view(items: Vec<Json>)
    ensures
        Json::Array(items)@ == JsonView::Array(views(items@)),
{
    assert(Json::Array(items)@->Array_0 == views(items@));
}

/// The view of an object's members, as the views of the members.
pub proof fn lemma_object_view(members: Vec<(String, Json)>)
    ensures
        Json::Object(members)@ == JsonView::Object(member_views(members@)),
{
    assert(Json::Object(members)@->Object_0 == member_views(members@));
}

/// What is looked up is one of the members.
pub proof fn lemma_lookup(members: Seq<(Seq<char>, JsonView)>, key: Seq<char>) -> (i: int)
    requires
        lookup(members, key) is Some,
    ensures
        0 <= i < members.len(),
        lookup(members, key) == Some(members[i].1),
    decreases members.len(),
{
    if members[0].0 == key {
        0
    } else {
        let j = lemma_lookup(members.skip(1), key);
        assert(members.skip(1)[j] == members[j + 1]);
        j + 1
    }
}

/// What is looked up is the first member with the key, and nothing where there is none.
pub proof fn lemma_lookup_first(members: Seq<(Seq<char>, JsonView)>, key: Seq<char>)
    ensures
        match lookup(members, key) {
            Some(v) => exists|i: int|
                0 <= i < members.len() && #[trigger] members[i] == (key, v) && (forall|j: int|
                    0 <= j < i ==> (#[trigger] members[j]).0 != key),
            None => forall|j: int| 0 <= j < members.len() ==> (#[trigger] members[j]).0 != key,
        },
    decreases members.len(),
{
    if members.len() > 0 && members[0].0 != key {
        let rest = members.skip(1);
        lemma_lookup_first(rest, key);
        match lookup(rest, key) {
            Some(v) => {
                let i = choose|i: int|
                    0 <= i < rest.len() && #[trigger] rest[i] == (key, v) && (forall|j: int|
                        0 <= j < i ==> (#[trigger] rest[j]).0 != key);
                assert(members[i + 1] == (key, v));
                assert forall|j: int| 0 <= j < i + 1 implies (#[trigger] members[j]).0 != key by {
                    if j > 0 {
                        assert(rest[j - 1] == members[j]);
                    }
                }
            },
            None => {
                assert forall|j: int| 0 <= j < members.len() implies (#[trigger] members[j]).0
                    != key by {
                    if j > 0 {
                        assert(rest[j - 1] == members[j]);
                    }
                }
            },
        }
    } else if members.len() > 0 {
        assert(members[0] == (key, members[0].1));
    }
}

/// Members are what they hold: a text, a number, a list or a truth value, and nothing
/// else.
pub proof fn lemma_members_held(v: JsonView, key: Seq<char>, m: JsonView)
    requires
        v.member(key) == Some(m),
    ensures
        text_member(v, key) == match m {
            JsonView::Str(s) => Some(s),
            _ => None,
        },
        items_member(v, key) == match m {
            JsonView::Array(items) => Some(items),
            _ => None,
        },
        m matches JsonView::PosInt(n) ==> (n <= i64::MAX ==> int_member(v, key) == Some(
            n as int,
        )),
        m matches JsonView::NegInt(n) ==> int_member(v, key) == Some(n as int),
        int_member(v, key) is Some ==> m is PosInt || m is NegInt,
        text_or_empty(text_member(v, key)) == match m {
            JsonView::Str(s) => s,
            _ => Seq::empty(),
        },
{
}

/// A number below two keys is what it is, and what stands in for it where there is none.
pub proof fn lemma_numbers_held(v: JsonView, a: Seq<char>, b: Seq<char>, default: int)
    ensures
        v.member(a) is None ==> int_at(v, a, b, default) == default && uint_at(v, a, b) is None,
        v.member(a) matches Some(m) ==> {
            &&& m.member(b) is None ==> int_at(v, a, b, default) == default && uint_at(v, a, b)
                is None
            &&& m.member(b) matches Some(JsonView::PosInt(n)) ==> uint_at(v, a, b) == Some(n as nat)
            &&& m.member(b) matches Some(JsonView::PosInt(n)) ==> (n <= i64::MAX ==> int_at(
                v,
                a,
                b,
                default,
            ) == n)
            &&& m.member(b) matches Some(JsonView::NegInt(n)) ==> int_at(v, a, b, default) == n
        },
{
}

/// A member of a value is smaller than the value, and so are a member's items.
pub proof fn lemma_member_smaller(v: JsonView, key: Seq<char>)
    ensures
        v.member(key) matches Some(m) ==> decreases_to!(v => m),
        items_member(v, key) matches Some(items) ==> decreases_to!(v => items),
{
    if v.member(key) is Some {
        let members = v->Object_0;
        let i = lemma_lookup(members, key);
        assert(decreases_to!(v => v->Object_0));
        assert(decreases_to!(members => members[i]));
        assert(decreases_to!(members[i] => members[i].1));
        let m = members[i].1;
        if m is Array {
            assert(decreases_to!(m => m->Array_0));
        }
    }
}

/// The object with these two members.
pub open spec fn pair_of(k1: Seq<char>, v1: JsonView, k2: Seq<char>, v2: JsonView) -> JsonView {
    JsonView::Object(seq![(k1, v1), (k2, v2)])
}

/// The object with these two members.
pub fn pair(k1: &str, v1: Json, k2: &str, v2: Json) -> (r: Json)
    ensures
        r@ == pair_of(k1@, v1@, k2@, v2@),
{
    let mut members: Vec<(String, Json)> = Vec::new();
    members.push((k1.to_owned(), v1));
    members.push((k2.to_owned(), v2));
    proof {
        lemma_object_view(members);
        assert(member_views(members@) =~= seq![(k1@, v1@), (k2@, v2@)]);
    }
    Json::Object(members)
}

/// The object with these three members.
pub open spec fn triple_of(
    k1: Seq<char>,
    v1: JsonView,
    k2: Seq<char>,
    v2: JsonView,
    k3: Seq<char>,
    v3: JsonView,
) -> JsonView {
    JsonView::Object(seq![(k1, v1), (k2, v2), (k3, v3)])
}

/// The object with these three members.
pub fn triple(k1: &str, v1: Json, k2: &str, v2: Json, k3: &str, v3: Json) -> (r: Json)
    ensures
        r@ == triple_of(k1@, v1@, k2@, v2@, k3@, v3@),
{
    let mut members: Vec<(String, Json)> = Vec::new();
    members.push((k1.to_owned(), v1));
    members.push((k2.to_owned(), v2));
    members.push((k3.to_owned(), v3));
    proof {
        lemma_object_view(members);
        assert(member_views(members@) =~= seq![(k1@, v1@), (k2@, v2@), (k3@, v3@)]);
    }
    Json::Object(members)
}

impl Json {
    /// The member `key` of an object; nothing for any other value.
    pub fn get(&self, key: &str) -> (r: Option<&Json>)
        ensures
            opt_view(r) == self@.member(key@),
    {
        match self {
            Json::Object(members) => {
                let ghost all = member_views(members@);
                proof {
                    lemma_object_view(*members);
                    assert(all.skip(0) == all);
                }
                for i in 0..members.len()
                    invariant
                        all == member_views(members@),
                        self@ == JsonView::Object(all),
                        lookup(all, key@) == lookup(all.skip(i as int), key@),
                {
                    proof {
                        assert(all.skip(i as int)[0] == all[i as int]);
                        assert(all.skip(i as int).skip(1) == all.skip(i + 1));
                    }
                    if same_text(members[i].0.as_str(), key) {
                        return Some(&members[i].1);
                    }
                }
                None
            },
            _ => None,
        }
    }

    /// The member `b` of the member `a`.
    pub fn get2(&self, a: &str, b: &str) -> (r: Option<&Json>)
        ensures
            opt_view(r) == self@.member2(a@, b@),
    {
        match self.get(a) {
            Some(v) => v.get(b),
            None => None,
        }
    }

    /// The text of a string.
    pub fn as_str(&self) -> (r: Option<&str>)
        ensures
            r is Some <==> self@.text() is Some,
            r matches Some(s) ==> self@.text() == Some(s@),
    {
        match self {
            Json::Str(s) => Some(s.as_str()),
            _ => None,
        }
    }

    /// The number, where it is an integer of 64 bits with a sign.
    pub fn as_i64(&self) -> (r: Option<i64>)
        ensures
            r is Some <==> self@.integer() is Some,
            r matches Some(n) ==> self@.integer() == Some(n as int),
    {
        match self {
            Json::PosInt(n) => if *n <= i64::MAX as u64 {
                Some(*n as i64)
            } else {
                None
            },
            Json::NegInt(n) => Some(*n),
            _ => None,
        }
    }

    /// The number, where it is an integer of 64 bits without a sign.
    pub fn as_u64(&self) -> (r: Option<u64>)
        ensures
            r is Some <==> self@.natural() is Some,
            r matches Some(n) ==> self@.natural() == Some(n as nat),
    {
        match self {
            Json::PosInt(n) => Some(*n),
            _ => None,
        }
    }

    /// The truth value.
    pub fn as_bool(&self) -> (r: Option<bool>)
        ensures
            r == self@.boolean(),
    {
        match self {
            Json::Bool(b) => Some(*b),
            _ => None,
        }
    }

    /// The items of an array.
    pub fn as_array(&self) -> (r: Option<&Vec<Json>>)
        ensures
            r is Some <==> self@.items() is Some,
            r matches Some(v) ==> self@.items() == Some(views(v@)),
    {
        match self {
            Json::Array(items) => {
                proof {
                    lemma_array_view(*items);
                }
                Some(items)
            },
            _ => None,
        }
    }

    /// The members of an object.
    pub fn as_object(&self) -> (r: Option<&Vec<(String, Json)>>)
        ensures
            r is Some <==> self@.members() is Some,
            r matches Some(v) ==> self@.members() == Some(member_views(v@)),
    {
        match self {
            Json::Object(members) => {
                proof {
                    lemma_object_view(*members);
                }
                Some(members)
            },
            _ => None,
        }
    }

    /// The text of the member `key`.
    pub fn text_member(&self, key: &str) -> (r: Option<&str>)
        ensures
            r is Some <==> text_member(self@, key@) is Some,
            r matches Some(s) ==> text_member(self@, key@) == Some(s@),
    {
        match self.get(key) {
            Some(v) => v.as_str(),
            None => None,
        }
    }

    /// The integer that is the member `key`.
    pub fn int_member(&self, key: &str) -> (r: Option<i64>)
        ensures
            r is Some <==> int_member(self@, key@) is Some,
            r matches Some(n) ==> int_member(self@, key@) == Some(n as int),
    {
        match self.get(key) {
            Some(v) => v.as_i64(),
            None => None,
        }
    }

    /// The integer that is the member `b` of the member `a`, or 0.
    pub fn int_at(&self, a: &str, b: &str) -> (r: i64)
        ensures
            r == int_at(self@, a@, b@, 0),
    {
        match self.get2(a, b) {
            Some(v) => match v.as_i64() {
                Some(n) => n,
                None => 0,
            },
            None => 0,
        }
    }

    /// The natural number that is the member `b` of the member `a`.
    pub fn uint_at(&self, a: &str, b: &str) -> (r: Option<u64>)
        ensures
            r is Some <==> uint_at(self@, a@, b@) is Some,
            r matches Some(n) ==> uint_at(self@, a@, b@) == Some(n as nat),
    {
        match self.get2(a, b) {
            Some(v) => v.as_u64(),
            None => None,
        }
    }

    /// The items of the array that is the member `key`.
    pub fn items_member(&self, key: &str) -> (r: Option<&Vec<Json>>)
        ensures
            r is Some <==> items_member(self@, key@) is Some,
            r matches Some(v) ==> items_member(self@, key@) == Some(views(v@)),
    {
        match self.get(key) {
            Some(v) => v.as_array(),
            None => None,
        }
    }

    /// A value that holds the same.
    pub fn duplicate(&self) -> (r: Json)
        ensures
            r@ == self@,
        decreases self,
    {
        match self {
            Json::Null => Json::Null,
            Json::Bool(b) => Json::Bool(*b),
            Json::PosInt(n) => Json::PosInt(*n),
            Json::NegInt(n) => Json::NegInt(*n),
            Json::Float(s) => Json::Float(s.clone()),
            Json::Str(s) => Json::Str(s.clone()),
            Json::Array(items) => {
                let mut out: Vec<Json> = Vec::new();
                for i in 0..items.len()
                    invariant
                        *self == Json::Array(*items),
                        views(out@) == views(items@).take(i as int),
                {
                    let ghost before = views(out@);
                    proof {
                        assert(decreases_to!(self => self->Array_0));
                        assert(decreases_to!(items => items@));
                        assert(decreases_to!(items@ => items@[i as int]));
                    }
                    out.push(items[i].duplicate());
                    proof {
                        assert(views(out@) == before.push(items@[i as int]@));
                        assert(views(items@).take(i + 1) == views(items@).take(i as int).push(
                            items@[i as int]@,
                        ));
                    }
                }
                proof {
                    assert(views(items@).take(items@.len() as int) == views(items@));
                    lemma_array_view(*items);
                    lemma_array_view(out);
                }
                Json::Array(out)
            },
            Json::Object(members) => {
                let mut out: Vec<(String, Json)> = Vec::new();
                for i in 0..members.len()
                    invariant
                        *self == Json::Object(*members),
                        member_views(out@) == member_views(members@).take(i as int),
                {
                    let ghost before = member_views(out@);
                    proof {
                        assert(decreases_to!(self => self->Object_0));
                        assert(decreases_to!(members => members@));
                        assert(decreases_to!(members@ => members@[i as int]));
                        assert(decreases_to!(members@[i as int] => members@[i as int].1));
                    }
                    let entry = (members[i].0.clone(), members[i].1.duplicate());
                    out.push(entry);
                    proof {
                        let m = members@[i as int];
                        assert(member_views(out@) == before.push((m.0@, m.1@)));
                        assert(member_views(members@).take(i + 1) == member_views(members@).take(
                            i as int,
                        ).push((m.0@, m.1@)));
                    }
                }
                proof {
                    assert(member_views(members@).take(members@.len() as int) == member_views(
                        members@,
                    ));
                    lemma_object_view(*members);
                    lemma_object_view(out);
                }
                Json::Object(out)
            },
        }
    }
}

// ---------------------------------------------------------------------------
// serde_json
// ---------------------------------------------------------------------------

/// `serde_json::Value`.
#[verifier::external_type_specification]
#[verifier::external_body]
pub struct ExValue(serde_json::Value);

/// What a `serde_json::Value` holds: its arrays item by item and its objects
/// member by member, in the order in which they are walked.
pub uninterp spec fn value_content(v: serde_json::Value) -> JsonView;

/// What `serde_json::from_str` makes of a text: the value that it holds, or the
/// message of the error.
pub uninterp spec fn parsed_json(text: Seq<char>) -> Result<JsonView, Seq<char>>;

/// The text that `serde_json::Value::to_string` writes of a value that holds
/// this.
pub uninterp spec fn json_text(v: JsonView) -> Seq<char>;

/// One level of a `serde_json::Value`.
pub enum ValueParts {
    Null,
    Bool(bool),
    PosInt(u64),
    NegInt(i64),
    Float(String),
    Str(String),
    Array(Vec<serde_json::Value>),
    Object(Vec<(String, serde_json::Value)>),
}

/// What some values hold.
pub open spec fn contents(items: Seq<serde_json::Value>) -> Seq<JsonView> {
    items.map_values(|v: serde_json::Value| value_content(v))
}

/// What some members hold.
pub open spec fn member_contents(members: Seq<(String, serde_json::Value)>) -> Seq<
    (Seq<char>, JsonView),
> {
    members.map_values(|m: (String, serde_json::Value)| (m.0@, value_content(m.1)))
}

/// What one level of a `serde_json::Value` holds.
pub open spec fn parts_content(p: ValueParts) -> JsonView {
    match p {
        ValueParts::Null => JsonView::Null,
        ValueParts::Bool(b) => JsonView::Bool(b),
        ValueParts::PosInt(n) => JsonView::PosInt(n),
        ValueParts::NegInt(n) => JsonView::NegInt(n),
        ValueParts::Float(s) => JsonView::Float(s@),
        ValueParts::Str(s) => JsonView::Str(s@),
        ValueParts::Array(items) => JsonView::Array(contents(items@)),
        ValueParts::Object(members) => JsonView::Object(member_contents(members@)),
    }
}

/// Takes a `serde_json::Value` apart by one level, moving its fields out: which
/// variant it is, `Number::as_u64` and `Number::as_i64` for an integer, and
/// `Number::to_string` for any other number. What the parts hold is what the
/// value holds.
#[verifier::external_body]
pub(crate) fn value_parts(v: serde_json::Value) -> (r: ValueParts)
    ensures
        parts_content(r) == value_content(v),
{
    match v {
        serde_json::Value::Null => ValueParts::Null,
        serde_json::Value::Bool(b) => ValueParts::Bool(b),
        serde_json::Value::Number(n) => match (n.as_u64(), n.as_i64()) {
            (Some(u), _) => ValueParts::PosInt(u),
            (None, Some(i)) => ValueParts::NegInt(i),
            (None, None) => ValueParts::Float(n.to_string()),
        },
        serde_json::Value::String(s) => ValueParts::Str(s),
        serde_json::Value::Array(items) => ValueParts::Array(items),
        serde_json::Value::Object(members) => ValueParts::Object(members.into_iter().collect()),
    }
}

/// `serde_json::Value::to_string`: the JSON text of a value, a function of what
/// the value holds.
#[verifier::external_body]
pub(crate) fn value_text(v: &serde_json::Value) -> (r: String)
    ensures
        r@ == json_text(value_content(*v)),
{
    v.to_string()
}

/// What a parse gave.
pub open spec fn outcome_content(r: Result<serde_json::Value, String>) -> Result<
    JsonView,
    Seq<char>,
> {
    match r {
        Ok(v) => Ok(value_content(v)),
        Err(e) => Err(e@),
    }
}

/// `serde_json::from_str`: the value that a text holds, or the error's message,
/// both functions of the text.
#[verifier::external_body]
pub(crate) fn parse_value(text: &str) -> (r: Result<serde_json::Value, String>)
    ensures
        outcome_content(r) == parsed_json(text@),
{
    serde_json::from_str::<serde_json::Value>(text).map_err(|e| e.to_string())
}

/// The library's value for a `serde_json::Value`.
pub fn json_of(v: serde_json::Value) -> (r: Json)
    ensures
        r@ == value_content(v),
    decreases value_content(v),
{
    let ghost content = value_content(v);
    match value_parts(v) {
        ValueParts::Null => Json::Null,
        ValueParts::Bool(b) => Json::Bool(b),
        ValueParts::PosInt(n) => Json::PosInt(n),
        ValueParts::NegInt(n) => Json::NegInt(n),
        ValueParts::Float(s) => Json::Float(s),
        ValueParts::Str(s) => Json::Str(s),
        ValueParts::Array(items) => {
            let ghost all = contents(items@);
            let mut out: Vec<Json> = Vec::new();
            for item in it: items
                invariant
                    content == value_content(v),
                    content == JsonView::Array(all),
                    all == contents(it.seq()),
                    views(out@) == all.take(it.index() as int),
            {
                proof {
                    assert(all[it.index() as int] == value_content(item));
                    assert(decreases_to!(content => content->Array_0));
                    assert(decreases_to!(all => all[it.index() as int]));
                }
                let ghost before = views(out@);
                let j = json_of(item);
                out.push(j);
                proof {
                    assert(views(out@) == before.push(j@));
                    assert(all.take(it.index() + 1) == all.take(it.index() as int).push(j@));
                }
            }
            proof {
                assert(all.take(all.len() as int) == all);
                lemma_array_view(out);
            }
            Json::Array(out)
        },
        ValueParts::Object(members) => {
            proof {
                assert(decreases_to!(content => content->Object_0));
            }
            let out = json_members(members);
            proof {
                lemma_object_view(out);
            }
            Json::Object(out)
        },
    }
}

/// The library's members for the members of a `serde_json::Value`.
pub fn json_members(members: Vec<(String, serde_json::Value)>) -> (r: Vec<(String, Json)>)
    ensures
        member_views(r@) == member_contents(members@),
    decreases member_contents(members@),
{
    let ghost all = member_contents(members@);
    let mut out: Vec<(String, Json)> = Vec::new();
    for member in it: members
        invariant
            all == member_contents(members@),
            all == member_contents(it.seq()),
            member_views(out@) == all.take(it.index() as int),
    {
        proof {
            assert(all[it.index() as int] == (member.0@, value_content(member.1)));
            assert(decreases_to!(all => all[it.index() as int]));
            assert(decreases_to!(all[it.index() as int] => all[it.index() as int].1));
        }
        let ghost before = member_views(out@);
        let entry = (member.0, json_of(member.1));
        let ghost held = (entry.0@, entry.1@);
        out.push(entry);
        proof {
            assert(member_views(out@) == before.push(held));
            assert(all.take(it.index() + 1) == all.take(it.index() as int).push(held));
        }
    }
    proof {
        assert(all.take(all.len() as int) == all);
    }
    out
}

/// The value that a JSON text holds, or the error's message.
pub fn parse_json(text: &str) -> (r: Result<Json, String>)
    ensures
        r matches Ok(v) ==> parsed_json(text@) == Ok::<JsonView, Seq<char>>(v@),
        r matches Err(e) ==> parsed_json(text@) == Err::<JsonView, Seq<char>>(e@),
{
    match parse_value(text) {
        Ok(v) => Ok(json_of(v)),
        Err(e) => Err(e),
    }
}

} // verus!

//! A JSON value held as plain data, with the accessors the dashboard's
//! logic reads it through. Text is parsed into this form, and printed
//! from it, at the program's edges.
use vstd::prelude::*;
use crate::text::str_eq;

verus! {

/// A JSON value. Numbers keep their source text; an object's members keep
/// the order in which they were given.
pub enum Json {
    Null,
    Bool(bool),
    Number(String),
    Str(String),
    Array(Vec<Json>),
    Object(Vec<(String, Json)>),
}

/// The mathematical model of a JSON value.
pub enum JsonV {
    Null,
    Bool(bool),
    Number(Seq<char>),
    Str(Seq<char>),
    Array(Seq<JsonV>),
    Object(Seq<(Seq<char>, JsonV)>),
}

/// The model of a JSON value.
pub open spec fn json_view(j: Json) -> JsonV
    decreases j,
{
    match j {
        Json::Null => JsonV::Null,
        Json::Bool(b) => JsonV::Bool(b),
        Json::Number(n) => JsonV::Number(n@),
        Json::Str(s) => JsonV::Str(s@),
        Json::Array(items) => JsonV::Array(
            Seq::new(
                items.len() as nat,
                |i: int|
                    if 0 <= i < items.len() {
                        json_view(items[i])
                    } else {
                        JsonV::Null
                    },
            ),
        ),
        Json::Object(members) => JsonV::Object(
            Seq::new(
                members.len() as nat,
                |i: int|
                    if 0 <= i < members.len() {
                        (members[i].0@, json_view(members[i].1))
                    } else {
                        (Seq::empty(), JsonV::Null)
                    },
            ),
        ),
    }
}

impl View for Json {
    type V = JsonV;

    open spec fn view(&self) -> JsonV {
        json_view(*self)
    }
}

pub open spec fn member_of(ms: Seq<(Seq<char>, JsonV)>, key: Seq<char>) -> Option<JsonV>
    decreases ms.len(),
{
    if ms.len() == 0 {
        None
    } else if ms[0].0 == key {
        Some(ms[0].1)
    } else {
        member_of(ms.drop_first(), key)
    }
}

/// Position of the first member named `key`.
pub open spec fn member_pos(ms: Seq<(Seq<char>, JsonV)>, key: Seq<char>) -> Option<nat>
    decreases ms.len(),
{
    if ms.len() == 0 {
        None
    } else if ms[0].0 == key {
        Some(0)
    } else {
        match member_pos(ms.drop_first(), key) {
            Some(i) => Some(i + 1),
            None => None,
        }
    }
}

pub proof fn lemma_member_pos(ms: Seq<(Seq<char>, JsonV)>, key: Seq<char>)
    ensures
        member_pos(ms, key) matches Some(i) ==> i < ms.len() && ms[i as int].0 == key
            && member_of(ms, key) == Some(ms[i as int].1) && forall|j: int|
            0 <= j < i ==> #[trigger] ms[j].0 != key,
        member_pos(ms, key) is None ==> member_of(ms, key) is None && forall|j: int|
            0 <= j < ms.len() ==> #[trigger] ms[j].0 != key,
    decreases ms.len(),
{
    if ms.len() > 0 {
        lemma_member_pos(ms.drop_first(), key);
        assert forall|j: int| 1 <= j < ms.len() implies #[trigger] ms[j] == ms.drop_first()[j
            - 1] by {}
    }
}

/// The member found for `k` is the value at the first position named `k`.
pub proof fn lemma_member_of_first(ms: Seq<(Seq<char>, JsonV)>, k: Seq<char>, i: int)
    requires
        0 <= i < ms.len(),
        ms[i].0 == k,
        forall|j: int| 0 <= j < i ==> #[trigger] ms[j].0 != k,
    ensures
        member_of(ms, k) == Some(ms[i].1),
{
    lemma_member_pos(ms, k);
    if let Some(p) = member_pos(ms, k) {
        if p < i {
            assert(ms[p as int].0 != k);
        } else if p > i {
            assert(ms[i].0 != k);
        }
    }
}

/// No member is named `k`: none is found.
pub proof fn lemma_member_of_none(ms: Seq<(Seq<char>, JsonV)>, k: Seq<char>)
    requires
        forall|j: int| 0 <= j < ms.len() ==> #[trigger] ms[j].0 != k,
    ensures
        member_of(ms, k) is None,
{
    lemma_member_pos(ms, k);
    if let Some(p) = member_pos(ms, k) {
        assert(ms[p as int].0 != k);
    }
}

/// `set_member` changes what is found for `key` only.
pub proof fn lemma_set_member(ms: Seq<(Seq<char>, JsonV)>, key: Seq<char>, v: JsonV, k: Seq<char>)
    ensures
        member_of(set_member(ms, key, v), k) == if k == key {
            Some(v)
        } else {
            member_of(ms, k)
        },
{
    let ns = set_member(ms, key, v);
    lemma_member_pos(ms, key);
    lemma_member_pos(ms, k);
    match member_pos(ms, key) {
        Some(p) => {
            assert(forall|j: int| 0 <= j < ms.len() ==> #[trigger] ns[j].0 == ms[j].0);
            if k == key {
                lemma_member_of_first(ns, k, p as int);
            } else {
                match member_pos(ms, k) {
                    Some(q) => {
                        assert(q != p);
                        lemma_member_of_first(ns, k, q as int);
                    },
                    None => {
                        lemma_member_of_none(ns, k);
                    },
                }
            }
        },
        None => {
            if k == key {
                lemma_member_of_first(ns, k, ms.len() as int);
            } else {
                match member_pos(ms, k) {
                    Some(q) => {
                        lemma_member_of_first(ns, k, q as int);
                    },
                    None => {
                        lemma_member_of_none(ns, k);
                    },
                }
            }
        },
    }
}

/// `members` with the first member named `key` given the value `v`, or
/// with `(key, v)` added at the end when there is none
/// (`Map::insert` on an object).
pub open spec fn set_member(ms: Seq<(Seq<char>, JsonV)>, key: Seq<char>, v: JsonV) -> Seq<
    (Seq<char>, JsonV),
> {
    match member_pos(ms, key) {
        Some(i) => ms.update(i as int, (key, v)),
        None => ms.push((key, v)),
    }
}

/// The model of an object's members.
pub open spec fn members_view(ms: Seq<(String, Json)>) -> Seq<(Seq<char>, JsonV)> {
    Seq::new(ms.len(), |i: int| (ms[i].0@, json_view(ms[i].1)))
}

pub proof fn lemma_object_view(ms: Vec<(String, Json)>)
    ensures
        json_view(Json::Object(ms)) == JsonV::Object(members_view(ms@)),
{
    assert(json_view(Json::Object(ms))->Object_0 =~= members_view(ms@));
}

/// The model of an array's items.
pub open spec fn items_view(items: Seq<Json>) -> Seq<JsonV> {
    Seq::new(items.len(), |i: int| json_view(items[i]))
}

pub proof fn lemma_array_view(items: Vec<Json>)
    ensures
        json_view(Json::Array(items)) == JsonV::Array(items_view(items@)),
{
    assert(json_view(Json::Array(items))->Array_0 =~= items_view(items@));
}

/// Position of the first member named `key`.
pub fn find_member(ms: &Vec<(String, Json)>, key: &str) -> (r: Option<usize>)
    ensures
        r matches Some(i) ==> member_pos(members_view(ms@), key@) == Some(i as nat),
        r is None ==> member_pos(members_view(ms@), key@) is None,
{
    let ghost mv = members_view(ms@);
    let mut i: usize = 0;
    assert(mv.skip(0) =~= mv);
    while i < ms.len()
        invariant
            mv == members_view(ms@),
            i <= ms.len(),
            forall|j: int| 0 <= j < i ==> #[trigger] mv[j].0 != key@,
            member_pos(mv, key@) == match member_pos(mv.skip(i as int), key@) {
                Some(k) => Some((k + i) as nat),
                None => None,
            },
        decreases ms.len() - i,
    {
        assert(mv.skip(i as int)[0] == mv[i as int]);
        assert(mv.skip(i as int).drop_first() =~= mv.skip(i + 1));
        if str_eq(ms[i].0.as_str(), key) {
            return Some(i);
        }
        i = i + 1;
    }
    None
}

/// Gives member `key` the value `v`, as `set_member` says.
pub fn set_member_vec(ms: &mut Vec<(String, Json)>, key: &str, v: Json)
    ensures
        members_view(final(ms)@) == set_member(members_view(old(ms)@), key@, v@),
{
    let ghost old_mv = members_view(ms@);
    proof {
        lemma_member_pos(old_mv, key@);
    }
    match find_member(ms, key) {
        Some(i) => {
            let k = crate::text::owned(key);
            ms.set(i, (k, v));
            assert(members_view(ms@) =~= old_mv.update(i as int, (key@, v@)));
        },
        None => {
            let k = crate::text::owned(key);
            ms.push((k, v));
            assert(members_view(ms@) =~= old_mv.push((key@, v@)));
        },
    }
}

impl JsonV {
    /// `Value::get` with a string key: the member of an object, if any.
    pub open spec fn get(self, key: Seq<char>) -> Option<JsonV> {
        match self {
            JsonV::Object(ms) => member_of(ms, key),
            _ => None,
        }
    }

    /// `Value::as_str`.
    pub open spec fn as_str(self) -> Option<Seq<char>> {
        match self {
            JsonV::Str(s) => Some(s),
            _ => None,
        }
    }

    /// `Value::as_bool`.
    pub open spec fn as_bool(self) -> Option<bool> {
        match self {
            JsonV::Bool(b) => Some(b),
            _ => None,
        }
    }

    /// `Value::as_array`.
    pub open spec fn as_array(self) -> Option<Seq<JsonV>> {
        match self {
            JsonV::Array(items) => Some(items),
            _ => None,
        }
    }

    /// The string held by member `key`, if it is a string.
    pub open spec fn str_at(self, key: Seq<char>) -> Option<Seq<char>> {
        match self.get(key) {
            Some(v) => v.as_str(),
            None => None,
        }
    }

    /// The first member's value of an object, if it has one.
    pub open spec fn first_value(self) -> Option<JsonV> {
        match self {
            JsonV::Object(ms) => if ms.len() > 0 {
                Some(ms[0].1)
            } else {
                None
            },
            _ => None,
        }
    }
}

impl Json {
    /// `Value::get` with a string key.
    pub fn get(&self, key: &str) -> (r: Option<&Json>)
        ensures
            r matches Some(v) ==> self@.get(key@) == Some(v@),
            r is None ==> self@.get(key@) is None,
    {
        match self {
            Json::Object(members) => {
                let ghost ms = match self@ {
                    JsonV::Object(ms) => ms,
                    _ => Seq::empty(),
                };
                assert(*self == Json::Object(*members));
                assert forall|k: int| 0 <= k < members.len() implies #[trigger] ms[k] == (
                    members@[k].0@,
                    members@[k].1@,
                ) by {}
                let mut i: usize = 0;
                assert(ms.skip(0) =~= ms);
                while i < members.len()
                    invariant
                        self@ == JsonV::Object(ms),
                        i <= members.len(),
                        ms.len() == members.len(),
                        forall|k: int|
                            0 <= k < members.len() ==> #[trigger] ms[k] == (
                                members@[k].0@,
                                members@[k].1@,
                            ),
                        member_of(ms, key@) == member_of(ms.skip(i as int), key@),
                    decreases members.len() - i,
                {
                    assert(ms.skip(i as int)[0] == ms[i as int]);
                    assert(ms.skip(i as int).drop_first() =~= ms.skip(i + 1));
                    if str_eq(members[i].0.as_str(), key) {
                        return Some(&members[i].1);
                    }
                    i = i + 1;
                }
                None
            },
            _ => None,
        }
    }

    /// `Value::as_str`.
    pub fn as_str(&self) -> (r: Option<&String>)
        ensures
            r matches Some(s) ==> self@.as_str() == Some(s@),
            r is None ==> self@.as_str() is None,
    {
        match self {
            Json::Str(s) => Some(s),
            _ => None,
        }
    }

    /// `Value::as_bool`.
    pub fn as_bool(&self) -> (r: Option<bool>)
        ensures
            r == self@.as_bool(),
    {
        match self {
            Json::Bool(b) => Some(*b),
            _ => None,
        }
    }

    /// `Value::as_array`.
    pub fn as_array(&self) -> (r: Option<&Vec<Json>>)
        ensures
            r matches Some(v) ==> self@.as_array() matches Some(items) && items.len() == v.len()
                && forall|i: int| 0 <= i < v.len() ==> #[trigger] items[i] == v@[i]@,
            r is None ==> self@.as_array() is None,
    {
        match self {
            Json::Array(items) => {
                assert(*self == Json::Array(*items));
                Some(items)
            },
            _ => None,
        }
    }

    /// The string held by member `key`, if it is a string.
    pub fn str_at(&self, key: &str) -> (r: Option<&String>)
        ensures
            r matches Some(s) ==> self@.str_at(key@) == Some(s@),
            r is None ==> self@.str_at(key@) is None,
    {
        match self.get(key) {
            Some(v) => v.as_str(),
            None => None,
        }
    }

    /// The first member's value of an object, if it has one.
    pub fn first_value(&self) -> (r: Option<&Json>)
        ensures
            r matches Some(v) ==> self@.first_value() == Some(v@),
            r is None ==> self@.first_value() is None,
    {
        match self {
            Json::Object(members) => if members.len() > 0 {
                assert(*self == Json::Object(*members));
                Some(&members[0].1)
            } else {
                None
            },
            _ => None,
        }
    }

    /// A deep copy.
    pub fn duplicate(&self) -> (r: Json)
        ensures
            r@ == self@,
        decreases self,
    {
        match self {
            Json::Null => Json::Null,
            Json::Bool(b) => Json::Bool(*b),
            Json::Number(n) => Json::Number(n.clone()),
            Json::Str(s) => Json::Str(s.clone()),
            Json::Array(items) => {
                let mut out: Vec<Json> = Vec::new();
                let mut i: usize = 0;
                while i < items.len()
                    invariant
                        *self == Json::Array(*items),
                        i <= items.len(),
                        out.len() == i,
                        forall|k: int| 0 <= k < i ==> #[trigger] out@[k]@ == items@[k]@,
                    decreases items.len() - i,
                {
                    proof {
                        vstd::std_specs::vec::axiom_vec_index_decreases(*items, i as int);
                        assert(decreases_to!(*self => (*self)->Array_0));
                    }
                    let v = items[i].duplicate();
                    out.push(v);
                    i = i + 1;
                }
                let r = Json::Array(out);
                assert forall|k: int| 0 <= k < items.len() implies r@->Array_0[k]
                    == self@->Array_0[k] by {
                    assert(r@->Array_0[k] == json_view(out[k]));
                    assert(self@->Array_0[k] == json_view(items[k]));
                    assert(out@[k]@ == items@[k]@);
                }
                assert(r@->Array_0 =~= self@->Array_0);
                r
            },
            Json::Object(members) => {
                let mut out: Vec<(String, Json)> = Vec::new();
                let mut i: usize = 0;
                while i < members.len()
                    invariant
                        *self == Json::Object(*members),
                        i <= members.len(),
                        out.len() == i,
                        forall|k: int|
                            0 <= k < i ==> #[trigger] out@[k].0@ == members@[k].0@ && out@[k].1@
                                == members@[k].1@,
                    decreases members.len() - i,
                {
                    proof {
                        vstd::std_specs::vec::axiom_vec_index_decreases(*members, i as int);
                        assert(decreases_to!(*self => (*self)->Object_0));
                        assert(decreases_to!(members[i as int] => members[i as int].1));
                    }
                    let v = members[i].1.duplicate();
                    out.push((members[i].0.clone(), v));
                    i = i + 1;
                }
                let r = Json::Object(out);
                assert forall|k: int| 0 <= k < members.len() implies r@->Object_0[k]
                    == self@->Object_0[k] by {
                    assert(r@->Object_0[k] == (out[k].0@, json_view(out[k].1)));
                }
                assert(r@->Object_0 =~= self@->Object_0);
                r
            },
        }
    }
}


/// serde_json's dynamically typed value, carried only between the
/// conversions below and serde_json's own functions.
#[verifier::external_type_specification]
#[verifier::external_body]
pub struct ExJsonValue(serde_json::Value);

/// What `serde_json::from_str::<serde_json::Value>` makes of a text, in
/// this library's model: `None` when the text is not one JSON value.
pub uninterp spec fn json_parse(text: Seq<char>) -> Option<JsonV>;

/// The text `serde_json::to_string_pretty` prints for a value.
pub uninterp spec fn json_pretty(v: JsonV) -> Seq<char>;

/// Moves a serde_json value into a `Json`, one for one: a number keeps
/// the text serde_json prints for it, an object its members in the order
/// serde_json's map holds them.
#[verifier::external_body]
fn json_from_value(v: serde_json::Value) -> Json {
    match v {
        serde_json::Value::Null => Json::Null,
        serde_json::Value::Bool(b) => Json::Bool(b),
        serde_json::Value::Number(n) => Json::Number(n.to_string()),
        serde_json::Value::String(s) => Json::Str(s),
        serde_json::Value::Array(a) => Json::Array(a.into_iter().map(json_from_value).collect()),
        serde_json::Value::Object(m) => Json::Object(
            m.into_iter().map(|(k, x)| (k, json_from_value(x))).collect(),
        ),
    }
}

/// Moves a `Json` into serde_json's value, one for one; a number whose
/// text serde_json does not read as a number becomes `null`.
#[verifier::external_body]
fn json_to_value(j: &Json) -> serde_json::Value {
    match j {
        Json::Null => serde_json::Value::Null,
        Json::Bool(b) => serde_json::Value::Bool(*b),
        Json::Number(n) => n.parse::<serde_json::Number>().map_or(serde_json::Value::Null, serde_json::Value::Number),
        Json::Str(s) => serde_json::Value::String(s.clone()),
        Json::Array(a) => serde_json::Value::Array(a.iter().map(json_to_value).collect()),
        Json::Object(m) => serde_json::Value::Object(
            m.iter().map(|(k, x)| (k.clone(), json_to_value(x))).collect(),
        ),
    }
}

/// Parses a text with `serde_json::from_str` into serde_json's value and
/// converts it. Claimed: the outcome depends on the text alone, and is
/// named `json_parse`; nothing is stated of which texts parse.
#[verifier::external_body]
pub(crate) fn parse_json(text: &str) -> (r: Option<Json>)
    ensures
        match r {
            Some(j) => json_parse(text@) == Some(j@),
            None => json_parse(text@) is None,
        },
{
    serde_json::from_str::<serde_json::Value>(text).ok().map(json_from_value)
}

/// Prints a value with `serde_json::to_string_pretty`. Claimed: the text
/// depends on the value alone, and is named `json_pretty`.
#[verifier::external_body]
pub(crate) fn pretty_text(j: &Json) -> (r: String)
    ensures
        r@ == json_pretty(j@),
{
    serde_json::to_string_pretty(&json_to_value(j)).unwrap_or_default()
}

} // verus!

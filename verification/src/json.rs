//! JSON values, as the API answers them and as the tool prints them.

use vstd::prelude::*;

use crate::text;

verus! {

/// A JSON value. A number that no `u64` holds is kept as the text that writes
/// it; the members of an object keep the order they were added in.
#[derive(Debug, PartialEq)]
pub enum Json {
    Null,
    Bool(bool),
    Unsigned(u64),
    Number(String),
    Text(String),
    Array(Vec<Json>),
    Object(Vec<Member>),
}

/// One member of an object.
#[derive(Debug, PartialEq)]
pub struct Member {
    pub key: String,
    pub value: Json,
}

/// What a JSON value says.
pub enum JsonModel {
    Null,
    Bool(bool),
    Unsigned(nat),
    Number(Seq<char>),
    Text(Seq<char>),
    Array(Seq<JsonModel>),
    Object(Seq<(Seq<char>, JsonModel)>),
}

impl Json {
    /// The value without its representation.
    pub open spec fn model(self) -> JsonModel
        decreases self,
    {
        match self {
            Json::Null => JsonModel::Null,
            Json::Bool(b) => JsonModel::Bool(b),
            Json::Unsigned(n) => JsonModel::Unsigned(n as nat),
            Json::Number(s) => JsonModel::Number(s@),
            Json::Text(s) => JsonModel::Text(s@),
            Json::Array(items) => JsonModel::Array(
                Seq::new(
                    items@.len(),
                    |i: int|
                        if 0 <= i < items@.len() {
                            items@[i].model()
                        } else {
                            JsonModel::Null
                        },
                ),
            ),
            Json::Object(members) => JsonModel::Object(
                Seq::new(
                    members@.len(),
                    |i: int|
                        if 0 <= i < members@.len() {
                            (members@[i].key@, members@[i].value.model())
                        } else {
                            (Seq::empty(), JsonModel::Null)
                        },
                ),
            ),
        }
    }
}

/// The members of an object without their representation.
pub open spec fn members_model(members: Seq<Member>) -> Seq<(Seq<char>, JsonModel)> {
    members.map_values(|m: Member| (m.key@, m.value.model()))
}

/// The items of an array without their representation.
pub open spec fn items_model(items: Seq<Json>) -> Seq<JsonModel> {
    items.map_values(|j: Json| j.model())
}

/// What a value holds is what its parts hold.
pub proof fn lemma_model_parts(value: Json)
    ensures
        value matches Json::Object(members) ==> value.model() == JsonModel::Object(
            members_model(members@),
        ),
        value matches Json::Array(items) ==> value.model() == JsonModel::Array(
            items_model(items@),
        ),
{
    match value {
        Json::Object(members) => {
            assert(value.model()->Object_0 =~= members_model(members@));
        },
        Json::Array(items) => {
            assert(value.model()->Array_0 =~= items_model(items@));
        },
        _ => {},
    }
}

/// The value of the first member with this key.
pub open spec fn member(members: Seq<(Seq<char>, JsonModel)>, key: Seq<char>) -> Option<JsonModel>
    decreases members.len(),
{
    if members.len() == 0 {
        None
    } else if members[0].0 == key {
        Some(members[0].1)
    } else {
        member(members.skip(1), key)
    }
}

/// The member `key` of a value, which only an object has.
pub open spec fn field(value: JsonModel, key: Seq<char>) -> Option<JsonModel> {
    match value {
        JsonModel::Object(members) => member(members, key),
        _ => None,
    }
}

/// The number of a value that is a `u64`.
pub open spec fn as_unsigned(value: Option<JsonModel>) -> Option<nat> {
    match value {
        Some(JsonModel::Unsigned(n)) => Some(n),
        _ => None,
    }
}

/// The text of a value that is one.
pub open spec fn as_text(value: Option<JsonModel>) -> Option<Seq<char>> {
    match value {
        Some(JsonModel::Text(s)) => Some(s),
        _ => None,
    }
}

/// A number or a text, written out.
pub open spec fn written(value: JsonModel) -> Option<Seq<char>> {
    match value {
        JsonModel::Unsigned(n) => Some(text::decimal(n)),
        JsonModel::Number(s) => Some(s),
        JsonModel::Text(s) => Some(s),
        _ => None,
    }
}

/// The view of an optional text.
pub open spec fn text_view(s: Option<String>) -> Option<Seq<char>> {
    match s {
        Some(s) => Some(s@),
        None => None,
    }
}

/// The model of an optional value.
pub open spec fn value_view(v: Option<Json>) -> Option<JsonModel> {
    match v {
        Some(v) => Some(v.model()),
        None => None,
    }
}

impl Json {
    /// The member `key` of an object.
    pub fn get(&self, key: &str) -> (r: Option<&Json>)
        ensures
            match r {
                Some(v) => field(self.model(), key@) == Some(v.model()),
                None => field(self.model(), key@) is None,
            },
    {
        proof {
            lemma_model_parts(*self);
        }
        match self {
            Json::Object(members) => {
                let ghost all = members_model(members@);
                let mut i: usize = 0;
                proof {
                    assert(all.skip(0) =~= all);
                }
                while i < members.len()
                    invariant
                        i <= members@.len(),
                        all == members_model(members@),
                        self.model() == JsonModel::Object(all),
                        member(all, key@) == member(all.skip(i as int), key@),
                    decreases members@.len() - i,
                {
                    assert(all.skip(i as int)[0] == all[i as int]);
                    if text::same_text(members[i].key.as_str(), key) {
                        return Some(&members[i].value);
                    }
                    proof {
                        assert(all.skip(i as int).skip(1) =~= all.skip(i as int + 1));
                    }
                    i = i + 1;
                }
                None
            },
            _ => None,
        }
    }

    /// The value as a `u64`.
    pub fn as_u64(&self) -> (r: Option<u64>)
        ensures
            match r {
                Some(n) => as_unsigned(Some(self.model())) == Some(n as nat),
                None => as_unsigned(Some(self.model())) is None,
            },
    {
        match self {
            Json::Unsigned(n) => Some(*n),
            _ => None,
        }
    }

    /// The member `key` as a `u64`.
    pub fn get_u64(&self, key: &str) -> (r: Option<u64>)
        ensures
            match r {
                Some(n) => as_unsigned(field(self.model(), key@)) == Some(n as nat),
                None => as_unsigned(field(self.model(), key@)) is None,
            },
    {
        match self.get(key) {
            Some(v) => v.as_u64(),
            None => None,
        }
    }

    /// The member `key` as a text.
    pub fn get_text(&self, key: &str) -> (r: Option<String>)
        ensures
            text_view(r) == as_text(field(self.model(), key@)),
    {
        match self.get(key) {
            Some(v) => match v {
                Json::Text(s) => Some(s.clone()),
                _ => None,
            },
            None => None,
        }
    }

    /// A number or a text, written out.
    pub fn write_out(&self) -> (r: Option<String>)
        ensures
            text_view(r) == written(self.model()),
    {
        match self {
            Json::Unsigned(n) => Some(text::decimal_text(*n)),
            Json::Number(s) => Some(s.clone()),
            Json::Text(s) => Some(s.clone()),
            _ => None,
        }
    }
}

impl Json {
    /// A value that says the same.
    pub fn copy(&self) -> (r: Json)
        ensures
            r.model() == self.model(),
        decreases self,
    {
        match self {
            Json::Null => Json::Null,
            Json::Bool(b) => Json::Bool(*b),
            Json::Unsigned(n) => Json::Unsigned(*n),
            Json::Number(s) => Json::Number(s.clone()),
            Json::Text(s) => Json::Text(s.clone()),
            Json::Array(items) => {
                let mut out: Vec<Json> = Vec::new();
                let mut i: usize = 0;
                while i < items.len()
                    invariant
                        i <= items@.len(),
                        *self == Json::Array(*items),
                        items_model(out@) == items_model(items@).take(i as int),
                    decreases items@.len() - i,
                {
                    let ghost before = out@;
                    proof {
                        assert(decreases_to!(*self => self->Array_0));
                        assert(decreases_to!(*items => items@));
                        assert(decreases_to!(items@ => items@[i as int]));
                    }
                    let item = items[i].copy();
                    out.push(item);
                    i = i + 1;
                    proof {
                        assert(items_model(out@) =~= items_model(before).push(item.model()));
                        assert(items_model(out@) =~= items_model(items@).take(i as int));
                    }
                }
                let r = Json::Array(out);
                proof {
                    assert(items_model(items@).take(i as int) =~= items_model(items@));
                    lemma_model_parts(r);
                    lemma_model_parts(*self);
                }
                r
            },
            Json::Object(members) => {
                let mut out: Vec<Member> = Vec::new();
                let mut i: usize = 0;
                while i < members.len()
                    invariant
                        i <= members@.len(),
                        *self == Json::Object(*members),
                        members_model(out@) == members_model(members@).take(i as int),
                    decreases members@.len() - i,
                {
                    let ghost before = out@;
                    proof {
                        assert(decreases_to!(*self => self->Object_0));
                        assert(decreases_to!(*members => members@));
                        assert(decreases_to!(members@ => members@[i as int]));
                        assert(decreases_to!(members@[i as int] => members@[i as int].value));
                    }
                    let value = members[i].value.copy();
                    out.push(Member { key: members[i].key.clone(), value });
                    i = i + 1;
                    proof {
                        assert(members_model(out@) =~= members_model(before).push(
                            (members@[i - 1].key@, value.model()),
                        ));
                        assert(members_model(out@) =~= members_model(members@).take(i as int));
                    }
                }
                let r = Json::Object(out);
                proof {
                    assert(members_model(members@).take(i as int) =~= members_model(members@));
                    lemma_model_parts(r);
                    lemma_model_parts(*self);
                }
                r
            },
        }
    }
}

/// Builds a text value.
pub fn json_text(s: &str) -> (r: Json)
    ensures
        r.model() == JsonModel::Text(s@),
{
    Json::Text(s.to_owned())
}

/// The value that stands for an optional one: nothing is `null`.
pub open spec fn or_null(v: Option<JsonModel>) -> JsonModel {
    match v {
        Some(v) => v,
        None => JsonModel::Null,
    }
}

/// The value of an optional text: nothing is `null`.
pub open spec fn text_or_null(s: Option<Seq<char>>) -> JsonModel {
    match s {
        Some(s) => JsonModel::Text(s),
        None => JsonModel::Null,
    }
}

/// Adds a member to an object under construction.
pub fn push_member(members: &mut Vec<Member>, key: &str, value: Json)
    ensures
        members_model(final(members)@) == members_model(old(members)@).push((key@, value.model())),
{
    members.push(Member { key: key.to_owned(), value });
    proof {
        assert(members_model(members@) =~= members_model(old(members)@).push((key@, value.model())));
    }
}

/// Adds an optional text as a member: nothing is `null`.
pub fn push_text(members: &mut Vec<Member>, key: &str, value: Option<String>)
    ensures
        members_model(final(members)@) == members_model(old(members)@).push(
            (key@, text_or_null(text_view(value))),
        ),
{
    match value {
        Some(s) => push_member(members, key, Json::Text(s)),
        None => push_member(members, key, Json::Null),
    }
}

/// Adds an optional value as a member: nothing is `null`.
pub fn push_value(members: &mut Vec<Member>, key: &str, value: Option<Json>)
    ensures
        members_model(final(members)@) == members_model(old(members)@).push(
            (key@, or_null(value_view(value))),
        ),
{
    match value {
        Some(v) => push_member(members, key, v),
        None => push_member(members, key, Json::Null),
    }
}

/// A member is found by its key, and of several with one key the first counts.
/// A key that no member has finds nothing.
pub proof fn the_first_member_of_a_key_counts(
    members: Seq<(Seq<char>, JsonModel)>,
    key: Seq<char>,
    i: int,
)
    requires
        0 <= i <= members.len(),
        forall|k: int| 0 <= k < i ==> (#[trigger] members[k]).0 != key,
    ensures
        i == members.len() ==> member(members, key) is None,
        i < members.len() && members[i].0 == key ==> member(members, key) == Some(members[i].1),
    decreases members.len(),
{
    if members.len() > 0 && i > 0 {
        assert(members[0].0 != key);
        let rest = members.skip(1);
        assert forall|k: int| 0 <= k < i - 1 implies (#[trigger] rest[k]).0 != key by {
            assert(rest[k] == members[k + 1]);
        }
        the_first_member_of_a_key_counts(rest, key, i - 1);
    }
}

} // verus!

//! JSON texts and MessagePack bytes, which serde_json and rmp-serde read and write.
use vstd::prelude::*;
use vstd::string::*;
use crate::json;
use crate::json::{Json, JsonView};

verus! {

/// `serde_json::Value`.
#[verifier::external_type_specification]
#[verifier::external_body]
pub struct ExValue(serde_json::Value);

/// What a value of serde_json holds.
pub uninterp spec fn value_contents(v: serde_json::Value) -> JsonView;

/// What the items hold.
pub open spec fn items_contents(s: Seq<serde_json::Value>) -> Seq<JsonView> {
    s.map_values(|v: serde_json::Value| value_contents(v))
}

/// A value of serde_json taken apart.
pub enum Opened<'a> {
    Null,
    Bool(bool),
    Whole(u64),
    Number(String),
    Text(&'a String),
    List(&'a Vec<serde_json::Value>),
    Record(Vec<(&'a String, &'a serde_json::Value)>),
}

impl<'a> Opened<'a> {
    /// What the parts are.
    pub open spec fn view(self) -> JsonView {
        match self {
            Opened::Null => JsonView::Null,
            Opened::Bool(b) => JsonView::Bool(b),
            Opened::Whole(n) => JsonView::Whole(n),
            Opened::Number(s) => JsonView::Number(s@),
            Opened::Text(s) => JsonView::Text(s@),
            Opened::List(v) => JsonView::List(items_contents(v@)),
            Opened::Record(v) => JsonView::Record(
                v@.map_values(
                    |m: (&'a String, &'a serde_json::Value)| (m.0@, value_contents(*m.1)),
                ),
            ),
        }
    }
}

/// The variants of `serde_json::Value`, one for one. A number is told apart by
/// `serde_json::Number::as_u64`, and one that is not whole is given as it is written. The
/// members of an object come in its order.
#[verifier::external_body]
fn open_value<'a>(v: &'a serde_json::Value) -> (r: Opened<'a>)
    ensures
        r.view() == value_contents(*v),
{
    match v {
        serde_json::Value::Null => Opened::Null,
        serde_json::Value::Bool(b) => Opened::Bool(*b),
        serde_json::Value::Number(n) => match n.as_u64() {
            Some(whole) => Opened::Whole(whole),
            None => Opened::Number(n.to_string()),
        },
        serde_json::Value::String(s) => Opened::Text(s),
        serde_json::Value::Array(items) => Opened::List(items),
        serde_json::Value::Object(members) => Opened::Record(members.iter().collect()),
    }
}

/// What a value of serde_json is made of.
pub enum Parts {
    Null,
    Bool(bool),
    Whole(u64),
    Text(String),
    List(Vec<serde_json::Value>),
    Record(Vec<(String, serde_json::Value)>),
}

/// Members put one after the other: one whose name is there already takes the place of the
/// earlier one.
pub open spec fn gathered(s: Seq<(Seq<char>, JsonView)>) -> Seq<(Seq<char>, JsonView)>
    decreases s.len(),
{
    if s.len() == 0 {
        s
    } else {
        let before = gathered(s.drop_last());
        let at = json::member_index(before, s.last().0);
        if at < before.len() {
            before.update(at, s.last())
        } else {
            before.push(s.last())
        }
    }
}

/// What the members hold.
pub open spec fn members_contents(s: Seq<(String, serde_json::Value)>) -> Seq<
    (Seq<char>, JsonView),
> {
    s.map_values(|m: (String, serde_json::Value)| (m.0@, value_contents(m.1)))
}

impl Parts {
    /// What is made of the parts.
    pub open spec fn view(self) -> JsonView {
        match self {
            Parts::Null => JsonView::Null,
            Parts::Bool(b) => JsonView::Bool(b),
            Parts::Whole(n) => JsonView::Whole(n),
            Parts::Text(s) => JsonView::Text(s@),
            Parts::List(v) => JsonView::List(items_contents(v@)),
            Parts::Record(v) => JsonView::Record(gathered(members_contents(v@))),
        }
    }
}

/// The variants of `serde_json::Value`, one for one. The members of an object are put into
/// `serde_json::Map` in their order, which it keeps; of two with one name, the later value stands
/// in the place of the earlier.
#[verifier::external_body]
fn close_value(parts: Parts) -> (r: serde_json::Value)
    ensures
        value_contents(r) == parts.view(),
{
    match parts {
        Parts::Null => serde_json::Value::Null,
        Parts::Bool(b) => serde_json::Value::Bool(b),
        Parts::Whole(n) => serde_json::Value::from(n),
        Parts::Text(s) => serde_json::Value::String(s),
        Parts::List(items) => serde_json::Value::Array(items),
        Parts::Record(members) => serde_json::Value::Object(members.into_iter().collect()),
    }
}

/// What a JSON text denotes, or what is wrong with it.
pub uninterp spec fn json_parsed(s: Seq<char>) -> Result<JsonView, Seq<char>>;

/// `serde_json::from_str` to a `serde_json::Value`. What the text denotes, and the message of the
/// error, are named.
#[verifier::external_body]
fn parse_value(s: &str) -> (r: Result<serde_json::Value, String>)
    ensures
        match r {
            Ok(v) => json_parsed(s@) == Ok::<JsonView, Seq<char>>(value_contents(v)),
            Err(e) => json_parsed(s@) == Err::<JsonView, Seq<char>>(e@),
        },
{
    serde_json::from_str(s).map_err(|e| e.to_string())
}

/// A value as JSON text.
pub uninterp spec fn json_text(j: JsonView) -> Seq<char>;

/// The `Display` form of `serde_json::Value`. The text is named.
#[verifier::external_body]
fn value_text(v: &serde_json::Value) -> (r: String)
    ensures
        r@ == json_text(value_contents(*v)),
{
    v.to_string()
}

/// A value as MessagePack bytes.
pub uninterp spec fn msgpack_bytes(j: JsonView) -> Seq<u8>;

/// `rmp_serde::to_vec` of a `serde_json::Value`. The bytes are named. Whether there are any is left
/// open, since memory may run out; then the message of the error is given.
#[verifier::external_body]
fn pack_value(v: &serde_json::Value) -> (r: Result<Vec<u8>, String>)
    ensures
        r matches Ok(b) ==> b@ == msgpack_bytes(value_contents(*v)),
{
    rmp_serde::to_vec(v).map_err(|e| e.to_string())
}

/// The value as it is sent: a number is what its text denotes, and in every record, of two members
/// with one name the later value stands in the place of the earlier.
pub open spec fn sent(j: JsonView) -> JsonView
    decreases j,
{
    match j {
        JsonView::Number(s) => match json_parsed(s) {
            Ok(n) => n,
            Err(_) => JsonView::Null,
        },
        JsonView::List(s) => JsonView::List(items_sent(s)),
        JsonView::Record(s) => JsonView::Record(gathered(members_sent(s))),
        _ => j,
    }
}

/// The items as they are sent.
pub open spec fn items_sent(s: Seq<JsonView>) -> Seq<JsonView>
    decreases s,
{
    if s.len() == 0 {
        Seq::empty()
    } else {
        items_sent(s.drop_last()).push(sent(s[s.len() - 1]))
    }
}

/// The members as they are sent.
pub open spec fn members_sent(s: Seq<(Seq<char>, JsonView)>) -> Seq<(Seq<char>, JsonView)>
    decreases s,
{
    if s.len() == 0 {
        Seq::empty()
    } else {
        members_sent(s.drop_last()).push((s[s.len() - 1].0, sent(s[s.len() - 1].1)))
    }
}

/// The value of serde_json for a JSON value.
pub fn to_value(j: &Json) -> (r: serde_json::Value)
    ensures
        value_contents(r) == sent(j@),
    decreases j,
{
    match j {
        Json::Null => close_value(Parts::Null),
        Json::Bool(b) => close_value(Parts::Bool(*b)),
        Json::Whole(n) => close_value(Parts::Whole(*n)),
        Json::Number(s) => match parse_value(s.as_str()) {
            Ok(v) => v,
            Err(_) => close_value(Parts::Null),
        },
        Json::Text(s) => close_value(Parts::Text(s.clone())),
        Json::List(items) => {
            let mut values: Vec<serde_json::Value> = Vec::new();
            let mut i: usize = 0;
            proof {
                json::lemma_items(items@);
            }
            let ghost seen = json::items_view(items@);
            assert(seen.subrange(0, 0) =~= Seq::empty());
            while i < items.len()
                invariant
                    *j == Json::List(*items),
                    j@ == JsonView::List(seen),
                    seen.len() == items@.len(),
                    forall|k: int| 0 <= k < seen.len() ==> #[trigger] seen[k] == items@[k]@,
                    i <= items@.len(),
                    items_contents(values@) =~= items_sent(seen.subrange(0, i as int)),
                decreases items@.len() - i,
            {
                assert(seen[i as int] == items@[i as int]@);
                let v = to_value(&items[i]);
                proof {
                    let next = seen.subrange(0, i + 1);
                    assert(next.drop_last() =~= seen.subrange(0, i as int));
                    assert(next[next.len() - 1] == seen[i as int]);
                }
                values.push(v);
                i = i + 1;
            }
            assert(seen.subrange(0, i as int) =~= seen);
            close_value(Parts::List(values))
        },
        Json::Record(members) => {
            let mut values: Vec<(String, serde_json::Value)> = Vec::new();
            let mut i: usize = 0;
            proof {
                json::lemma_members(members@);
            }
            let ghost seen = json::members_view(members@);
            assert(seen.subrange(0, 0) =~= Seq::empty());
            while i < members.len()
                invariant
                    *j == Json::Record(*members),
                    j@ == JsonView::Record(seen),
                    seen.len() == members@.len(),
                    forall|k: int|
                        0 <= k < seen.len() ==> #[trigger] seen[k] == (
                            members@[k].0@,
                            members@[k].1@,
                        ),
                    i <= members@.len(),
                    members_contents(values@) =~= members_sent(seen.subrange(0, i as int)),
                decreases members@.len() - i,
            {
                assert(seen[i as int] == (members@[i as int].0@, members@[i as int].1@));
                let v = to_value(&members[i].1);
                proof {
                    let next = seen.subrange(0, i + 1);
                    assert(next.drop_last() =~= seen.subrange(0, i as int));
                    assert(next[next.len() - 1] == seen[i as int]);
                }
                values.push((members[i].0.clone(), v));
                i = i + 1;
            }
            assert(seen.subrange(0, i as int) =~= seen);
            close_value(Parts::Record(values))
        },
    }
}

/// The JSON value that a value of serde_json holds.
pub fn from_value(v: &serde_json::Value) -> (r: Json)
    ensures
        r@ == value_contents(*v),
    decreases value_contents(*v),
{
    match open_value(v) {
        Opened::Null => Json::Null,
        Opened::Bool(b) => Json::Bool(b),
        Opened::Whole(n) => Json::Whole(n),
        Opened::Number(s) => Json::Number(s),
        Opened::Text(s) => Json::Text(s.clone()),
        Opened::List(items) => {
            let ghost held = items_contents(items@);
            let mut out: Vec<Json> = Vec::new();
            let mut i: usize = 0;
            while i < items.len()
                invariant
                    value_contents(*v) == JsonView::List(held),
                    held == items_contents(items@),
                    i <= items@.len(),
                    json::items_view(out@) =~= held.subrange(0, i as int),
                decreases items@.len() - i,
            {
                assert(held[i as int] == value_contents(items@[i as int]));
                assert(decreases_to!(value_contents(*v) => value_contents(*v)->List_0));
                assert(decreases_to!(held => held[i as int]));
                let ghost before = out@;
                let item = from_value(&items[i]);
                out.push(item);
                assert(out@.drop_last() =~= before);
                i = i + 1;
            }
            assert(held.subrange(0, i as int) =~= held);
            Json::List(out)
        },
        Opened::Record(members) => {
            let ghost held = value_contents(*v)->Record_0;
            let mut out: Vec<(String, Json)> = Vec::new();
            let mut i: usize = 0;
            while i < members.len()
                invariant
                    value_contents(*v) == JsonView::Record(held),
                    held.len() == members@.len(),
                    forall|k: int|
                        0 <= k < held.len() ==> #[trigger] held[k] == (
                            members@[k].0@,
                            value_contents(*members@[k].1),
                        ),
                    i <= members@.len(),
                    json::members_view(out@) =~= held.subrange(0, i as int),
                decreases members@.len() - i,
            {
                assert(held[i as int] == (
                    members@[i as int].0@,
                    value_contents(*members@[i as int].1),
                ));
                assert(decreases_to!(value_contents(*v) => value_contents(*v)->Record_0));
                assert(decreases_to!(held => held[i as int]));
                assert(decreases_to!(held[i as int] => held[i as int].1));
                let ghost before = out@;
                let value = from_value(members[i].1);
                out.push((members[i].0.clone(), value));
                assert(out@.drop_last() =~= before);
                i = i + 1;
            }
            assert(held.subrange(0, i as int) =~= held);
            Json::Record(out)
        },
    }
}

/// `serde_json::Value::get` with a name: the member of an object.
#[verifier::external_body]
fn value_member<'a>(v: &'a serde_json::Value, name: &str) -> (r: Option<&'a serde_json::Value>)
    ensures
        match r {
            Some(m) => value_contents(*v).member(name@) == Some(value_contents(*m)),
            None => value_contents(*v).member(name@) is None,
        },
{
    v.get(name)
}

/// A JSON text, read.
pub struct Document {
    value: serde_json::Value,
}

impl Document {
    /// What the text denotes.
    pub closed spec fn view(&self) -> JsonView {
        value_contents(self.value)
    }

    /// Reads a JSON text, or says what is wrong with it.
    pub fn parse(s: &str) -> (r: Result<Document, String>)
        ensures
            match r {
                Ok(d) => json_parsed(s@) == Ok::<JsonView, Seq<char>>(d@),
                Err(e) => json_parsed(s@) == Err::<JsonView, Seq<char>>(e@),
            },
    {
        match parse_value(s) {
            Ok(value) => Ok(Document { value }),
            Err(e) => Err(e),
        }
    }

    /// The value.
    pub fn json(&self) -> (r: Json)
        ensures
            r@ == self@,
    {
        from_value(&self.value)
    }

    /// The value as JSON text.
    pub fn text(&self) -> (r: String)
        ensures
            r@ == json_text(self@),
    {
        value_text(&self.value)
    }

    /// A member as JSON text, if there is one with the name.
    pub fn member_text(&self, name: &str) -> (r: Option<String>)
        ensures
            match self@.member(name@) {
                Some(m) => r matches Some(s) && s@ == json_text(m),
                None => r is None,
            },
    {
        match value_member(&self.value, name) {
            Some(m) => Some(value_text(m)),
            None => None,
        }
    }
}

/// A JSON value as JSON text.
pub fn written(j: &Json) -> (r: String)
    ensures
        r@ == json_text(sent(j@)),
{
    value_text(&to_value(j))
}

/// A JSON value as MessagePack bytes, or why there are none.
pub fn packed(j: &Json) -> (r: Result<Vec<u8>, String>)
    ensures
        r matches Ok(b) ==> b@ == msgpack_bytes(sent(j@)),
{
    pack_value(&to_value(j))
}

/// Where no name occurs twice, the members are sent as they are.
pub proof fn law_distinct_members_stay(s: Seq<(Seq<char>, JsonView)>)
    requires
        forall|i: int, j: int| 0 <= i < j < s.len() ==> (#[trigger] s[i]).0 != (#[trigger] s[j]).0,
    ensures
        gathered(s) == s,
    decreases s.len(),
{
    if s.len() > 0 {
        let head = s.drop_last();
        assert forall|i: int, j: int| 0 <= i < j < head.len() implies (#[trigger] head[i]).0 != (
        #[trigger] head[j]).0 by {
            assert(s[i].0 != s[j].0);
        }
        law_distinct_members_stay(head);
        assert forall|k: int| 0 <= k < head.len() implies (#[trigger] head[k]).0 != s.last().0 by {
            assert(s[k].0 != s[s.len() - 1].0);
        }
        json::lemma_no_member(head, s.last().0);
        assert(head.push(s.last()) =~= s);
    }
}

} // verus!

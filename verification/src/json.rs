//! JSON values: what requests are made of and what replies are read from.
use vstd::prelude::*;
use vstd::string::*;
use crate::text::same_text;

verus! {

/// What a JSON value is.
pub enum JsonView {
    Null,
    Bool(bool),
    /// A number that is a whole one of the machine.
    Whole(u64),
    /// Any other number, as it is written.
    Number(Seq<char>),
    Text(Seq<char>),
    List(Seq<JsonView>),
    /// Names and values, in order.
    Record(Seq<(Seq<char>, JsonView)>),
}

/// The position of the first member with a name, or the number of members.
pub open spec fn member_index(s: Seq<(Seq<char>, JsonView)>, name: Seq<char>) -> int
    decreases s.len(),
{
    if s.len() == 0 {
        0
    } else {
        let i = member_index(s.drop_last(), name);
        if i < s.len() - 1 || s.last().0 == name {
            i
        } else {
            s.len() as int
        }
    }
}

impl JsonView {
    /// The member with a name, if the value is a record that has one.
    pub open spec fn member(self, name: Seq<char>) -> Option<JsonView> {
        match self {
            JsonView::Record(s) => if member_index(s, name) < s.len() {
                Some(s[member_index(s, name)].1)
            } else {
                None
            },
            _ => None,
        }
    }

    /// The text, if the value is one.
    pub open spec fn text(self) -> Option<Seq<char>> {
        match self {
            JsonView::Text(s) => Some(s),
            _ => None,
        }
    }

    /// The whole number, if the value is one.
    pub open spec fn whole(self) -> Option<u64> {
        match self {
            JsonView::Whole(n) => Some(n),
            _ => None,
        }
    }

    /// The items, if the value is a list.
    pub open spec fn list(self) -> Option<Seq<JsonView>> {
        match self {
            JsonView::List(s) => Some(s),
            _ => None,
        }
    }
}

/// The member of a member.
pub open spec fn member_of(j: Option<JsonView>, name: Seq<char>) -> Option<JsonView> {
    match j {
        Some(v) => v.member(name),
        None => None,
    }
}

/// The text of a value that may be missing.
pub open spec fn text_of(j: Option<JsonView>) -> Option<Seq<char>> {
    match j {
        Some(v) => v.text(),
        None => None,
    }
}

/// The whole number of a value that may be missing.
pub open spec fn whole_of(j: Option<JsonView>) -> Option<u64> {
    match j {
        Some(v) => v.whole(),
        None => None,
    }
}

/// The items of a value that may be missing.
pub open spec fn list_of(j: Option<JsonView>) -> Option<Seq<JsonView>> {
    match j {
        Some(v) => v.list(),
        None => None,
    }
}

/// A JSON value.
#[derive(Debug)]
pub enum Json {
    Null,
    Bool(bool),
    Whole(u64),
    Number(String),
    Text(String),
    List(Vec<Json>),
    Record(Vec<(String, Json)>),
}

/// What the items are.
pub open spec fn items_view(s: Seq<Json>) -> Seq<JsonView>
    decreases s,
{
    if s.len() == 0 {
        Seq::empty()
    } else {
        items_view(s.drop_last()).push(s[s.len() - 1].view())
    }
}

/// What the members are.
pub open spec fn members_view(s: Seq<(String, Json)>) -> Seq<(Seq<char>, JsonView)>
    decreases s,
{
    if s.len() == 0 {
        Seq::empty()
    } else {
        members_view(s.drop_last()).push((s[s.len() - 1].0@, s[s.len() - 1].1.view()))
    }
}

impl Json {
    /// What the value is.
    pub open spec fn view(&self) -> JsonView
        decreases self,
    {
        match self {
            Json::Null => JsonView::Null,
            Json::Bool(b) => JsonView::Bool(*b),
            Json::Whole(n) => JsonView::Whole(*n),
            Json::Number(s) => JsonView::Number(s@),
            Json::Text(s) => JsonView::Text(s@),
            Json::List(v) => JsonView::List(items_view(v@)),
            Json::Record(v) => JsonView::Record(members_view(v@)),
        }
    }

    /// A text as a value.
    pub fn text(s: &str) -> (r: Json)
        ensures
            r@ == JsonView::Text(s@),
    {
        Json::Text(s.to_owned())
    }

    /// An empty record.
    pub fn record() -> (r: Json)
        ensures
            r@ == JsonView::Record(Seq::empty()),
    {
        Json::Record(Vec::new())
    }

    /// A record with one more member at its end.
    pub fn with(self, name: &str, value: Json) -> (r: Json)
        ensures
            match self@ {
                JsonView::Record(s) => r@ == JsonView::Record(s.push((name@, value@))),
                _ => r@ == self@,
            },
    {
        match self {
            Json::Record(v) => {
                let mut v = v;
                let ghost before = v@;
                v.push((name.to_owned(), value));
                assert(v@.drop_last() =~= before);
                Json::Record(v)
            },
            other => other,
        }
    }

    /// The member with a name, if the value is a record that has one.
    pub fn member(&self, name: &str) -> (r: Option<&Json>)
        ensures
            match r {
                Some(j) => self@.member(name@) == Some(j@),
                None => self@.member(name@) is None,
            },
    {
        match self {
            Json::Record(v) => {
                let n: usize = v.len();
                let mut i: usize = 0;
                proof {
                    lemma_members(v@);
                }
                while i < n
                    invariant
                        n == v@.len(),
                        self@ == JsonView::Record(members_view(v@)),
                        i <= n,
                        members_view(v@).len() == n,
                        forall|k: int|
                            0 <= k < n ==> #[trigger] members_view(v@)[k] == (v@[k].0@, v@[k].1@),
                        forall|k: int| 0 <= k < i ==> (#[trigger] members_view(v@)[k]).0 != name@,
                    decreases n - i,
                {
                    assert(members_view(v@)[i as int] == (v@[i as int].0@, v@[i as int].1@));
                    if same_text(v[i].0.as_str(), name) {
                        proof {
                            lemma_member_index(members_view(v@), name@, i as int);
                        }
                        return Some(&v[i].1);
                    }
                    i = i + 1;
                }
                proof {
                    lemma_no_member(members_view(v@), name@);
                }
                None
            },
            _ => None,
        }
    }

    /// The text, if the value is one.
    pub fn as_str(&self) -> (r: Option<&str>)
        ensures
            match r {
                Some(s) => self@.text() == Some(s@),
                None => self@.text() is None,
            },
    {
        match self {
            Json::Text(s) => Some(s.as_str()),
            _ => None,
        }
    }

    /// The whole number, if the value is one.
    pub fn as_u64(&self) -> (r: Option<u64>)
        ensures
            r == self@.whole(),
    {
        match self {
            Json::Whole(n) => Some(*n),
            _ => None,
        }
    }

    /// The items, if the value is a list.
    pub fn as_list(&self) -> (r: Option<&Vec<Json>>)
        ensures
            match r {
                Some(v) => self@.list() == Some(items_view(v@)),
                None => self@.list() is None,
            },
    {
        match self {
            Json::List(v) => Some(v),
            _ => None,
        }
    }

    /// The text of a member.
    pub fn text_member(&self, name: &str) -> (r: Option<&str>)
        ensures
            match r {
                Some(s) => text_of(self@.member(name@)) == Some(s@),
                None => text_of(self@.member(name@)) is None,
            },
    {
        match self.member(name) {
            Some(j) => j.as_str(),
            None => None,
        }
    }
}

/// Each item is seen at its place.
pub proof fn lemma_items(s: Seq<Json>)
    ensures
        items_view(s).len() == s.len(),
        forall|i: int| 0 <= i < s.len() ==> #[trigger] items_view(s)[i] == s[i]@,
    decreases s.len(),
{
    if s.len() > 0 {
        lemma_items(s.drop_last());
        assert forall|i: int| 0 <= i < s.len() implies #[trigger] items_view(s)[i] == s[i]@ by {
            if i < s.len() - 1 {
                assert(items_view(s.drop_last())[i] == s.drop_last()[i]@);
            }
        }
    }
}

/// Each member is seen at its place.
pub proof fn lemma_members(s: Seq<(String, Json)>)
    ensures
        members_view(s).len() == s.len(),
        forall|i: int| 0 <= i < s.len() ==> #[trigger] members_view(s)[i] == (s[i].0@, s[i].1@),
    decreases s.len(),
{
    if s.len() > 0 {
        lemma_members(s.drop_last());
        assert forall|i: int| 0 <= i < s.len() implies #[trigger] members_view(s)[i] == (
            s[i].0@,
            s[i].1@,
        ) by {
            if i < s.len() - 1 {
                assert(members_view(s.drop_last())[i] == (s.drop_last()[i].0@, s.drop_last()[i].1@));
            }
        }
    }
}

proof fn lemma_member_index(s: Seq<(Seq<char>, JsonView)>, name: Seq<char>, i: int)
    requires
        0 <= i < s.len(),
        s[i].0 == name,
        forall|k: int| 0 <= k < i ==> (#[trigger] s[k]).0 != name,
    ensures
        member_index(s, name) == i,
    decreases s.len(),
{
    let t = s.drop_last();
    if i < s.len() - 1 {
        assert(t[i] == s[i]);
        assert forall|k: int| 0 <= k < i implies (#[trigger] t[k]).0 != name by {
            assert(t[k] == s[k]);
        }
        lemma_member_index(t, name, i);
    } else {
        assert forall|k: int| 0 <= k < t.len() implies (#[trigger] t[k]).0 != name by {
            assert(t[k] == s[k]);
        }
        lemma_no_member(t, name);
    }
}

/// Where no member has the name, none is found.
pub proof fn lemma_no_member(s: Seq<(Seq<char>, JsonView)>, name: Seq<char>)
    requires
        forall|k: int| 0 <= k < s.len() ==> (#[trigger] s[k]).0 != name,
    ensures
        member_index(s, name) == s.len(),
    decreases s.len(),
{
    if s.len() > 0 {
        let t = s.drop_last();
        assert forall|k: int| 0 <= k < t.len() implies (#[trigger] t[k]).0 != name by {
            assert(t[k] == s[k]);
        }
        lemma_no_member(t, name);
        assert(s.last() == s[s.len() - 1]);
    }
}

/// The first member with a name is the one that is found, whatever comes after it.
pub proof fn law_first_member_is_found(s: Seq<(Seq<char>, JsonView)>, name: Seq<char>, i: int)
    requires
        0 <= i < s.len(),
        s[i].0 == name,
        forall|k: int| 0 <= k < i ==> (#[trigger] s[k]).0 != name,
    ensures
        JsonView::Record(s).member(name) == Some(s[i].1),
{
    lemma_member_index(s, name, i);
}

} // verus!

//! JSON values, as far as the proxy reads them.

use vstd::prelude::*;

use crate::text::same_text;

verus! {

/// A JSON value.
#[derive(Debug, PartialEq, Eq)]
pub enum JsonValue {
    Null,
    Bool(bool),
    /// A number, in the digits that it is written with.
    Number(String),
    Text(String),
    Array(Vec<JsonValue>),
    /// The members of an object, each with its name.
    Object(Vec<(String, JsonValue)>),
}

/// A JSON value, with its texts as characters.
pub enum JsonView {
    Null,
    Bool(bool),
    Number(Seq<char>),
    Text(Seq<char>),
    Array(Seq<JsonView>),
    Object(Seq<(Seq<char>, JsonView)>),
}

impl JsonValue {
    /// The value, with its texts as characters.
    pub open spec fn view(&self) -> JsonView
        decreases self,
    {
        match self {
            JsonValue::Null => JsonView::Null,
            JsonValue::Bool(b) => JsonView::Bool(*b),
            JsonValue::Number(text) => JsonView::Number(text@),
            JsonValue::Text(text) => JsonView::Text(text@),
            JsonValue::Array(items) => JsonView::Array(
                Seq::new(
                    items@.len(),
                    |i: int|
                        if 0 <= i < items@.len() {
                            items@[i].view()
                        } else {
                            JsonView::Null
                        },
                ),
            ),
            JsonValue::Object(members) => JsonView::Object(
                Seq::new(
                    members@.len(),
                    |i: int|
                        if 0 <= i < members@.len() {
                            (members@[i].0@, members@[i].1.view())
                        } else {
                            (Seq::empty(), JsonView::Null)
                        },
                ),
            ),
        }
    }

    /// The first member of an object that has the given name.
    pub fn get(&self, name: &str) -> (found: Option<&JsonValue>)
        ensures
            match (found, self.view().member(name@)) {
                (Some(value), Some(expected)) => value.view() == expected,
                (None, None) => true,
                _ => false,
            },
    {
        match self {
            JsonValue::Object(members) => {
                let ghost seen = self.view()->Object_0;
                let mut i: usize = 0;
                while i < members.len()
                    invariant
                        i <= members.len(),
                        seen == self.view()->Object_0,
                        *self == JsonValue::Object(*members),
                        forall|j: int| 0 <= j < i ==> seen[j].0 != name@,
                    decreases members.len() - i,
                {
                    assert(seen[i as int] == (members@[i as int].0@, members@[i as int].1.view()));
                    if same_text(members[i].0.as_str(), name) {
                        proof {
                            lemma_first_named(seen, name@, i as int);
                        }
                        return Some(&members[i].1);
                    }
                    i = i + 1;
                }
                proof {
                    lemma_none_named(seen, name@);
                }
                None
            },
            _ => None,
        }
    }

    /// The text, where the value is one.
    pub fn as_str(&self) -> (text: Option<&str>)
        ensures
            match (text, self.view().text()) {
                (Some(found), Some(expected)) => found@ == expected,
                (None, None) => true,
                _ => false,
            },
    {
        match self {
            JsonValue::Text(text) => Some(text.as_str()),
            _ => None,
        }
    }

    /// Whether the value is null.
    pub fn is_null(&self) -> (null: bool)
        ensures
            null == (self.view() is Null),
    {
        match self {
            JsonValue::Null => true,
            _ => false,
        }
    }
}

impl Clone for JsonValue {
    fn clone(&self) -> (res: Self)
        ensures
            res.view() == self.view(),
        decreases self,
    {
        match self {
            JsonValue::Null => JsonValue::Null,
            JsonValue::Bool(b) => JsonValue::Bool(*b),
            JsonValue::Number(text) => JsonValue::Number(text.clone()),
            JsonValue::Text(text) => JsonValue::Text(text.clone()),
            JsonValue::Array(items) => {
                let mut copies: Vec<JsonValue> = Vec::new();
                let mut i: usize = 0;
                while i < items.len()
                    invariant
                        i <= items.len(),
                        copies@.len() == i,
                        *self == JsonValue::Array(*items),
                        forall|j: int|
                            0 <= j < i ==> (#[trigger] copies@[j]).view() == items@[j].view(),
                    decreases items.len() - i,
                {
                    assert(decreases_to!(*self => self->Array_0));
                    assert(decreases_to!(*items => items@));
                    assert(decreases_to!(items@ => items@[i as int]));
                    copies.push(items[i].clone());
                    i = i + 1;
                }
                let res = JsonValue::Array(copies);
                assert(res.view()->Array_0 =~= self.view()->Array_0);
                res
            },
            JsonValue::Object(members) => {
                let mut copies: Vec<(String, JsonValue)> = Vec::new();
                let mut i: usize = 0;
                while i < members.len()
                    invariant
                        i <= members.len(),
                        copies@.len() == i,
                        *self == JsonValue::Object(*members),
                        forall|j: int|
                            0 <= j < i ==> (#[trigger] copies@[j]).0@ == members@[j].0@
                                && copies@[j].1.view() == members@[j].1.view(),
                    decreases members.len() - i,
                {
                    assert(decreases_to!(*self => self->Object_0));
                    assert(decreases_to!(*members => members@));
                    assert(decreases_to!(members@ => members@[i as int]));
                    assert(decreases_to!(members@[i as int] => members@[i as int].1));
                    copies.push((members[i].0.clone(), members[i].1.clone()));
                    i = i + 1;
                }
                let res = JsonValue::Object(copies);
                assert(res.view()->Object_0 =~= self.view()->Object_0);
                res
            },
        }
    }
}

/// The members of an object, with their texts as characters.
pub open spec fn members_view(members: Seq<(String, JsonValue)>) -> Seq<(Seq<char>, JsonView)> {
    members.map_values(|member: (String, JsonValue)| (member.0@, member.1.view()))
}

/// The items of an array, with their texts as characters.
pub open spec fn items_view(items: Seq<JsonValue>) -> Seq<JsonView> {
    items.map_values(|item: JsonValue| item.view())
}

/// The object with the given members.
pub fn object_of(members: Vec<(String, JsonValue)>) -> (value: JsonValue)
    ensures
        value.view() == JsonView::Object(members_view(members@)),
{
    let value = JsonValue::Object(members);
    assert(value.view()->Object_0 =~= members_view(members@));
    value
}

/// The array with the given items.
pub fn array_of(items: Vec<JsonValue>) -> (value: JsonValue)
    ensures
        value.view() == JsonView::Array(items_view(items@)),
{
    let value = JsonValue::Array(items);
    assert(value.view()->Array_0 =~= items_view(items@));
    value
}

/// The value that is the given text.
pub fn text_of(text: &str) -> (value: JsonValue)
    ensures
        value.view() == JsonView::Text(text@),
{
    JsonValue::Text(text.to_string())
}

/// The value of the first of the members that has the given name.
pub open spec fn first_named(members: Seq<(Seq<char>, JsonView)>, name: Seq<char>) -> Option<JsonView>
    decreases members.len(),
{
    if members.len() == 0 {
        None
    } else if members.first().0 == name {
        Some(members.first().1)
    } else {
        first_named(members.drop_first(), name)
    }
}

impl JsonView {
    /// The first member of an object that has the given name.
    pub open spec fn member(self, name: Seq<char>) -> Option<JsonView> {
        match self {
            JsonView::Object(members) => first_named(members, name),
            _ => None,
        }
    }

    /// The text, where the value is one.
    pub open spec fn text(self) -> Option<Seq<char>> {
        match self {
            JsonView::Text(text) => Some(text),
            _ => None,
        }
    }
}

/// A member with no other of its name before it is the one that is found.
proof fn lemma_first_named(members: Seq<(Seq<char>, JsonView)>, name: Seq<char>, at: int)
    requires
        0 <= at < members.len(),
        members[at].0 == name,
        forall|j: int| 0 <= j < at ==> members[j].0 != name,
    ensures
        first_named(members, name) == Some(members[at].1),
    decreases at,
{
    if at > 0 {
        assert forall|j: int| 0 <= j < at - 1 implies members.drop_first()[j].0 != name by {
            assert(members.drop_first()[j] == members[j + 1]);
        }
        lemma_first_named(members.drop_first(), name, at - 1);
    }
}

/// Where no member has the name, none is found.
proof fn lemma_none_named(members: Seq<(Seq<char>, JsonView)>, name: Seq<char>)
    requires
        forall|j: int| 0 <= j < members.len() ==> members[j].0 != name,
    ensures
        first_named(members, name) is None,
    decreases members.len(),
{
    if members.len() > 0 {
        assert forall|j: int| 0 <= j < members.len() - 1 implies members.drop_first()[j].0
            != name by {
            assert(members.drop_first()[j] == members[j + 1]);
        }
        lemma_none_named(members.drop_first(), name);
    }
}

/// The member of an object that is found by a name is the first one of that name, and
/// nothing is found where there is none.
pub proof fn law_first_named(members: Seq<(Seq<char>, JsonView)>, name: Seq<char>, at: int)
    ensures
        (forall|i: int| 0 <= i < members.len() ==> (#[trigger] members[i]).0 != name)
            ==> JsonView::Object(members).member(name) is None,
        0 <= at < members.len() && members[at].0 == name && (forall|i: int|
            0 <= i < at ==> (#[trigger] members[i]).0 != name) ==> JsonView::Object(members).member(
            name,
        ) == Some(members[at].1),
{
    if forall|i: int| 0 <= i < members.len() ==> (#[trigger] members[i]).0 != name {
        lemma_none_named(members, name);
    }
    if 0 <= at < members.len() && members[at].0 == name && (forall|i: int|
        0 <= i < at ==> (#[trigger] members[i]).0 != name) {
        lemma_first_named(members, name, at);
    }
}

} // verus!

//! JSON values as plain data: what the item documents of a database hold.

use vstd::prelude::*;

use crate::text;

verus! {

/// A JSON value. A number is kept as it was written.
#[derive(Debug)]
pub enum Json {
    Null,
    Bool(bool),
    Number(String),
    Text(String),
    Array(Vec<Json>),
    /// The members, in order. A key that occurs twice is read at its first place.
    Object(Vec<(String, Json)>),
}

/// The value of the first of `members` that has the key.
pub open spec fn member_of(members: Seq<(String, Json)>, key: Seq<char>) -> Option<Json>
    decreases members.len(),
{
    if members.len() == 0 {
        None
    } else if members[0].0@ == key {
        Some(members[0].1)
    } else {
        member_of(members.skip(1), key)
    }
}

impl Json {
    /// The member of an object, where there is one of that name.
    pub open spec fn spec_member(self, key: Seq<char>) -> Option<Json> {
        match self {
            Json::Object(members) => member_of(members@, key),
            _ => None,
        }
    }

    /// The text of a string value.
    pub open spec fn spec_text(self) -> Option<String> {
        match self {
            Json::Text(text) => Some(text),
            _ => None,
        }
    }

    /// The elements of the array under `key`; empty where there is none.
    pub open spec fn spec_elements(self, key: Seq<char>) -> Seq<Json> {
        match self.spec_member(key) {
            Some(Json::Array(items)) => items@,
            _ => Seq::empty(),
        }
    }

    /// Executable [`Json::spec_member`].
    pub fn member(&self, key: &str) -> (value: Option<&Json>)
        ensures
            match value {
                Some(v) => self.spec_member(key@) == Some(*v),
                None => self.spec_member(key@) is None,
            },
    {
        match self {
            Json::Object(members) => {
                assert(members@.skip(0) =~= members@);
                for i in 0..members.len()
                    invariant
                        *self == Json::Object(*members),
                        member_of(members@, key@) == member_of(members@.skip(i as int), key@),
                {
                    if text::same_text(members[i].0.as_str(), key) {
                        return Some(&members[i].1);
                    }
                    assert(members@.skip(i as int).skip(1) =~= members@.skip(i + 1));
                }
                None
            },
            _ => None,
        }
    }

    /// Whether an object has a member of that name.
    pub fn has_member(&self, key: &str) -> (has: bool)
        ensures
            has == self.spec_member(key@) is Some,
    {
        self.member(key).is_some()
    }

    /// Executable [`Json::spec_text`].
    pub fn text(&self) -> (text: Option<&String>)
        ensures
            match text {
                Some(t) => self.spec_text() == Some(*t),
                None => self.spec_text() is None,
            },
    {
        match self {
            Json::Text(text) => Some(text),
            _ => None,
        }
    }
}

/// The member that is found has the key and is the first that has it; where none
/// is found no member has it. What is no object has no members.
pub proof fn law_first_member_of_the_key_is_found(members: Seq<(String, Json)>, key: Seq<char>)
    ensures
        match member_of(members, key) {
            Some(value) => exists|i: int|
                0 <= i < members.len() && (#[trigger] members[i]).0@ == key && members[i].1 == value
                    && forall|j: int| 0 <= j < i ==> (#[trigger] members[j]).0@ != key,
            None => forall|j: int| 0 <= j < members.len() ==> (#[trigger] members[j]).0@ != key,
        },
    decreases members.len(),
{
    if members.len() > 0 && members[0].0@ != key {
        let rest = members.skip(1);
        law_first_member_of_the_key_is_found(rest, key);
        match member_of(members, key) {
            Some(value) => {
                let i = choose|i: int|
                    0 <= i < rest.len() && (#[trigger] rest[i]).0@ == key && rest[i].1 == value
                        && forall|j: int| 0 <= j < i ==> (#[trigger] rest[j]).0@ != key;
                assert(members[i + 1] == rest[i]);
                assert forall|j: int| 0 <= j < i + 1 implies (#[trigger] members[j]).0@ != key by {
                    if j > 0 {
                        assert(rest[j - 1] == members[j]);
                    }
                }
            },
            None => {
                assert forall|j: int| 0 <= j < members.len() implies (#[trigger] members[j]).0@
                    != key by {
                    if j > 0 {
                        assert(rest[j - 1] == members[j]);
                    }
                }
            },
        }
    } else if members.len() > 0 {
        assert(members[0].0@ == key);
    }
}

/// The elements under a key are those of the array that the first member of the
/// key holds; anything else has none.
pub proof fn law_elements_are_those_of_an_array(members: Vec<(String, Json)>, key: Seq<char>)
    ensures
        match member_of(members@, key) {
            Some(Json::Array(items)) => Json::Object(members).spec_elements(key) == items@,
            _ => Json::Object(members).spec_elements(key).len() == 0,
        },
{
}

} // verus!

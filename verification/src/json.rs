//! The JSON values that the wiki API answers with, as far as they are read.

use crate::text::same_text;
use vstd::prelude::*;

verus! {

/// A JSON value. A number is kept where it is an integer; of any other number
/// only the fact is kept.
#[derive(Debug)]
pub enum Json {
    Null,
    Bool(bool),
    Int(i64),
    /// An integer above the range of `i64`.
    Big(u64),
    /// A number that is no integer of 64 bits.
    Fraction,
    Text(String),
    List(Vec<Json>),
    /// The members in their order; of several with one name the first counts.
    Object(Vec<(String, Json)>),
}

/// The value of the first member with the given name, from position `i` on.
pub open spec fn member_from(members: Seq<(String, Json)>, name: Seq<char>, i: int) -> Option<Json>
    decreases members.len() - i,
{
    if i < 0 || i >= members.len() {
        None
    } else if members[i].0@ == name {
        Some(members[i].1)
    } else {
        member_from(members, name, i + 1)
    }
}

/// The member of an object; nothing is a member of any other value.
pub open spec fn member(j: Json, name: Seq<char>) -> Option<Json> {
    match j {
        Json::Object(members) => member_from(members@, name, 0),
        _ => None,
    }
}

/// The member of an optional value.
pub open spec fn member_opt(j: Option<Json>, name: Seq<char>) -> Option<Json> {
    match j {
        Some(v) => member(v, name),
        None => None,
    }
}

/// The integer that a value is.
pub open spec fn int_of(j: Option<Json>) -> Option<i64> {
    match j {
        Some(Json::Int(n)) => Some(n),
        _ => None,
    }
}

/// The truth value that a value is.
pub open spec fn bool_of(j: Option<Json>) -> Option<bool> {
    match j {
        Some(Json::Bool(b)) => Some(b),
        _ => None,
    }
}

/// The text that a value is.
pub open spec fn text_of(j: Option<Json>) -> Option<Seq<char>> {
    match j {
        Some(Json::Text(s)) => Some(s@),
        _ => None,
    }
}

/// The list that a value is.
pub open spec fn list_of(j: Option<Json>) -> Option<Seq<Json>> {
    match j {
        Some(Json::List(v)) => Some(v@),
        _ => None,
    }
}

/// The items of a list; no other value has any.
pub open spec fn items_of(j: Option<Json>) -> Seq<Json> {
    match list_of(j) {
        Some(v) => v,
        None => Seq::empty(),
    }
}

/// The value behind an optional reference.
pub open spec fn value_of(j: Option<&Json>) -> Option<Json> {
    match j {
        Some(v) => Some(*v),
        None => None,
    }
}

/// The values behind a list of references.
pub open spec fn values_of(v: Seq<&Json>) -> Seq<Json> {
    Seq::new(v.len(), |i: int| *v[i])
}

impl Json {
    /// The member with the given name.
    pub fn get(&self, name: &str) -> (r: Option<&Json>)
        ensures
            value_of(r) == member(*self, name@),
    {
        match self {
            Json::Object(members) => {
                let mut i: usize = 0;
                while i < members.len()
                    invariant
                        i <= members@.len(),
                        member(*self, name@) == member_from(members@, name@, i as int),
                    decreases members@.len() - i,
                {
                    if same_text(members[i].0.as_str(), name) {
                        return Some(&members[i].1);
                    }
                    i += 1;
                }
                None
            },
            _ => None,
        }
    }

    /// The integer, where the value is one in the range of `i64`.
    pub fn as_i64(&self) -> (r: Option<i64>)
        ensures
            r == int_of(Some(*self)),
    {
        match self {
            Json::Int(n) => Some(*n),
            _ => None,
        }
    }

    /// The truth value, where the value is one.
    pub fn as_bool(&self) -> (r: Option<bool>)
        ensures
            r == bool_of(Some(*self)),
    {
        match self {
            Json::Bool(b) => Some(*b),
            _ => None,
        }
    }

    /// The text, where the value is one.
    pub fn as_str(&self) -> (r: Option<&str>)
        ensures
            match r {
                Some(s) => text_of(Some(*self)) == Some(s@),
                None => text_of(Some(*self)) is None,
            },
    {
        match self {
            Json::Text(s) => Some(s.as_str()),
            _ => None,
        }
    }

    /// The list, where the value is one.
    pub fn as_array(&self) -> (r: Option<&Vec<Json>>)
        ensures
            match r {
                Some(v) => list_of(Some(*self)) == Some(v@),
                None => list_of(Some(*self)) is None,
            },
    {
        match self {
            Json::List(v) => Some(v),
            _ => None,
        }
    }

    /// The integer member with the given name.
    pub fn get_i64(&self, name: &str) -> (r: Option<i64>)
        ensures
            r == int_of(member(*self, name@)),
    {
        match self.get(name) {
            Some(v) => v.as_i64(),
            None => None,
        }
    }

    /// The member with the given name, where it is a truth value.
    pub fn get_bool(&self, name: &str) -> (r: Option<bool>)
        ensures
            r == bool_of(member(*self, name@)),
    {
        match self.get(name) {
            Some(v) => v.as_bool(),
            None => None,
        }
    }

    /// The text member with the given name.
    pub fn get_str(&self, name: &str) -> (r: Option<&str>)
        ensures
            match r {
                Some(s) => text_of(member(*self, name@)) == Some(s@),
                None => text_of(member(*self, name@)) is None,
            },
    {
        match self.get(name) {
            Some(v) => v.as_str(),
            None => None,
        }
    }

    /// The items of the list member with the given name.
    pub fn get_items(&self, name: &str) -> (r: Option<&Vec<Json>>)
        ensures
            match r {
                Some(v) => list_of(member(*self, name@)) == Some(v@),
                None => list_of(member(*self, name@)) is None,
            },
    {
        match self.get(name) {
            Some(v) => v.as_array(),
            None => None,
        }
    }
}

/// The member of an object is that of the first pair with its name, wherever the
/// pair stands; an object without such a pair has no such member, and neither has
/// a value that is no object.
pub proof fn law_first_pair_counts(members: Vec<(String, Json)>, name: Seq<char>, j: Json)
    ensures
        forall|k: int|
            0 <= k < members@.len() && (#[trigger] members@[k]).0@ == name && (forall|i: int|
                0 <= i < k ==> (#[trigger] members@[i]).0@ != name) ==> member(
                Json::Object(members),
                name,
            ) == Some(members@[k].1),
        (forall|i: int| 0 <= i < members@.len() ==> (#[trigger] members@[i]).0@ != name) ==> member(
            Json::Object(members),
            name,
        ) is None,
        !(j is Object) ==> member(j, name) is None,
{
    assert forall|k: int|
        0 <= k < members@.len() && (#[trigger] members@[k]).0@ == name && (forall|i: int|
            0 <= i < k ==> (#[trigger] members@[i]).0@ != name) implies member(
        Json::Object(members),
        name,
    ) == Some(members@[k].1) by {
        lemma_member_at(members@, name, k, 0);
    }
    if forall|i: int| 0 <= i < members@.len() ==> (#[trigger] members@[i]).0@ != name {
        lemma_no_member(members@, name, 0);
    }
}

proof fn lemma_member_at(members: Seq<(String, Json)>, name: Seq<char>, k: int, i: int)
    requires
        0 <= i <= k < members.len(),
        members[k].0@ == name,
        forall|j: int| 0 <= j < k ==> (#[trigger] members[j]).0@ != name,
    ensures
        member_from(members, name, i) == Some(members[k].1),
    decreases k - i,
{
    if i < k {
        assert(members[i].0@ != name);
        lemma_member_at(members, name, k, i + 1);
    }
}

proof fn lemma_no_member(members: Seq<(String, Json)>, name: Seq<char>, i: int)
    requires
        0 <= i,
        forall|j: int| 0 <= j < members.len() ==> (#[trigger] members[j]).0@ != name,
    ensures
        member_from(members, name, i) is None,
    decreases members.len() - i,
{
    if i < members.len() {
        lemma_no_member(members, name, i + 1);
    }
}

/// A value is read as what it is, and as nothing else.
pub proof fn law_values_are_read_as_they_are(n: i64, b: bool, s: String, v: Vec<Json>, j: Json)
    ensures
        int_of(Some(Json::Int(n))) == Some(n),
        bool_of(Some(Json::Bool(b))) == Some(b),
        text_of(Some(Json::Text(s))) == Some(s@),
        list_of(Some(Json::List(v))) == Some(v@),
        items_of(Some(Json::List(v))) == v@,
        !(j is Int) ==> int_of(Some(j)) is None,
        !(j is Bool) ==> bool_of(Some(j)) is None,
        !(j is Text) ==> text_of(Some(j)) is None,
        !(j is List) ==> list_of(Some(j)) is None && items_of(Some(j)).len() == 0,
        int_of(None) is None && bool_of(None) is None && text_of(None) is None && items_of(
            None,
        ).len() == 0,
{
}

} // verus!

//! A JSON value as the library reads and builds it.

use vstd::prelude::*;
use crate::text::str_eq;

verus! {

/// A JSON value. Numbers are kept without their value: nothing in this
/// library reads one.
#[derive(Debug)]
pub enum Json {
    Null,
    Bool(bool),
    Number,
    Str(String),
    Array(Vec<Json>),
    /// Members in document order.
    Object(Vec<(String, Json)>),
}

/// The member `key` of `members`: the first one with that name.
pub open spec fn member(members: Seq<(String, Json)>, key: Seq<char>) -> Option<Json>
    decreases members.len(),
{
    if members.len() == 0 {
        None
    } else if members[0].0@ == key {
        Some(members[0].1)
    } else {
        member(members.drop_first(), key)
    }
}

/// `value["key"]`: the member of an object, `None` for anything else.
pub open spec fn json_get(v: Json, key: Seq<char>) -> Option<Json> {
    match v {
        Json::Object(m) => member(m@, key),
        _ => None,
    }
}

/// `value[key]` (see [`json_get`]).
pub fn json_member<'a>(v: &'a Json, key: &str) -> (r: Option<&'a Json>)
    ensures
        match json_get(*v, key@) {
            Some(x) => r == Some(&x),
            None => r is None,
        },
{
    match v {
        Json::Object(members) => {
            let mut i: usize = 0;
            assert(members@.skip(0) == members@);
            while i < members.len()
                invariant
                    i <= members@.len(),
                    json_get(*v, key@) == member(members@, key@),
                    member(members@, key@) == member(members@.skip(i as int), key@),
                decreases members.len() - i,
            {
                assert(members@.skip(i as int)[0] == members@[i as int]);
                assert(members@.skip(i as int).drop_first() == members@.skip(i + 1));
                if str_eq(members[i].0.as_str(), key) {
                    return Some(&members[i].1);
                }
                i = i + 1;
            }
            None
        },
        _ => None,
    }
}


/// The members of an object with their names taken by view.
pub open spec fn members_view(m: Seq<(String, Json)>) -> Seq<(Seq<char>, Json)> {
    m.map_values(|e: (String, Json)| (e.0@, e.1))
}

/// The position of the first member named `key`.
pub open spec fn key_index(m: Seq<(Seq<char>, Json)>, key: Seq<char>) -> Option<int>
    decreases m.len(),
{
    if m.len() == 0 {
        None
    } else if m[0].0 == key {
        Some(0)
    } else {
        match key_index(m.drop_first(), key) {
            Some(i) => Some(i + 1),
            None => None,
        }
    }
}

/// `obj[key] = value`: the member named `key` gets `value`, or the pair is
/// added at the end when there is none.
pub open spec fn obj_insert(m: Seq<(Seq<char>, Json)>, key: Seq<char>, value: Json) -> Seq<(Seq<char>, Json)> {
    match key_index(m, key) {
        Some(i) => m.update(i, (key, value)),
        None => m.push((key, value)),
    }
}

/// A string value, `null` when absent.
pub open spec fn str_or_null(v: Option<String>) -> Json {
    match v {
        Some(s) => Json::Str(s),
        None => Json::Null,
    }
}

proof fn lemma_key_index_bounds(m: Seq<(Seq<char>, Json)>, key: Seq<char>)
    ensures
        match key_index(m, key) {
            Some(i) => 0 <= i < m.len() && m[i].0 == key && forall|j: int| 0 <= j < i ==> m[j].0 != key,
            None => forall|j: int| 0 <= j < m.len() ==> m[j].0 != key,
        },
    decreases m.len(),
{
    if m.len() > 0 && m[0].0 != key {
        lemma_key_index_bounds(m.drop_first(), key);
        assert forall|j: int| 1 <= j < m.len() implies m[j] == m.drop_first()[j - 1] by {}
    }
}

/// Sets member `key` of `members` to `value` (see [`obj_insert`]).
pub fn obj_set(members: &mut Vec<(String, Json)>, key: &str, value: Json)
    ensures
        members_view(final(members)@) == obj_insert(members_view(old(members)@), key@, value),
{
    let ghost mv = members_view(members@);
    proof {
        lemma_key_index_bounds(mv, key@);
    }
    let mut i: usize = 0;
    while i < members.len()
        invariant
            i <= members@.len(),
            mv == members_view(members@),
            mv == members_view(old(members)@),
            forall|j: int| 0 <= j < i ==> mv[j].0 != key@,
            match key_index(mv, key@) {
                Some(k) => 0 <= k < mv.len() && mv[k].0 == key@ && forall|j: int| 0 <= j < k ==> mv[j].0 != key@,
                None => forall|j: int| 0 <= j < mv.len() ==> mv[j].0 != key@,
            },
        decreases members.len() - i,
    {
        assert(mv[i as int].0 == members@[i as int].0@);
        if str_eq(members[i].0.as_str(), key) {
            assert(key_index(mv, key@) == Some(i as int));
            let ghost old_members = members@;
            members.set(i, (String::from_str(key), value));
            assert(members@ == old_members.update(i as int, (members@[i as int].0, value)));
            assert(members_view(members@) =~= mv.update(i as int, (key@, value)));
            return;
        }
        i = i + 1;
    }
    assert(key_index(mv, key@) is None);
    members.push((String::from_str(key), value));
    assert(members_view(members@) =~= mv.push((key@, value)));
}

} // verus!

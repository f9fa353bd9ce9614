//! JSON values, as the remote store sends and receives them, and the shapes
//! this library reads out of them.

use vstd::prelude::*;
use vstd::string::*;
use crate::table::{lemma_sorted_insert_sorted, sorted_insert, Table};
use crate::text::str_eq;

verus! {

/// A JSON value.
#[derive(Debug)]
pub enum Json {
    Null,
    Bool(bool),
    /// A number, with its value where it is a whole number that fits `u64`.
    Number(Option<u64>),
    Str(String),
    Array(Vec<Json>),
    /// An object's members, each name once.
    Object(Vec<(String, Json)>),
}

/// The member of `fields` named `k`: the first one.
pub open spec fn member(fields: Seq<(String, Json)>, k: Seq<char>) -> Option<Json>
    decreases fields.len(),
{
    if fields.len() == 0 {
        None
    } else if fields[0].0@ == k {
        Some(fields[0].1)
    } else {
        member(fields.drop_first(), k)
    }
}

/// The members of `fields`, all strings, as a table; `None` if any member is
/// not a string. A name given twice keeps its last value.
pub open spec fn string_members(fields: Seq<(String, Json)>) -> Option<Seq<(Seq<char>, Seq<char>)>>
    decreases fields.len(),
{
    if fields.len() == 0 {
        Some(Seq::empty())
    } else {
        match (string_members(fields.drop_last()), fields.last().1) {
            (Some(t), Json::Str(v)) => Some(sorted_insert(t, fields.last().0@, v@)),
            _ => None,
        }
    }
}

/// `data`.
pub open spec fn data_name() -> Seq<char> {
    seq!['d', 'a', 't', 'a']
}

/// The member named `k`.
pub fn get_member<'a>(fields: &'a Vec<(String, Json)>, k: &str) -> (r: Option<&'a Json>)
    ensures
        r is Some == member(fields@, k@) is Some,
        r is Some ==> *r->0 == member(fields@, k@)->0,
{
    let mut i: usize = 0;
    assert(fields@.subrange(0, fields@.len() as int) =~= fields@);
    while i < fields.len()
        invariant
            i <= fields@.len(),
            member(fields@, k@) == member(fields@.subrange(i as int, fields@.len() as int), k@),
        decreases fields@.len() - i,
    {
        let ghost rest = fields@.subrange(i as int, fields@.len() as int);
        assert(rest[0] == fields@[i as int]);
        if str_eq(fields[i].0.as_str(), k) {
            return Some(&fields[i].1);
        }
        assert(rest.drop_first() =~= fields@.subrange(i + 1, fields@.len() as int));
        i = i + 1;
    }
    None
}

/// The string members of `fields` as a table, or `None` if one is not a
/// string.
pub fn string_table(fields: &Vec<(String, Json)>) -> (r: Option<Table<String>>)
    ensures
        r is Some == string_members(fields@) is Some,
        r is Some ==> r->0@ == string_members(fields@)->0 && r->0.wf(),
{
    let mut t: Table<String> = Table::new();
    let mut i: usize = 0;
    assert(fields@.subrange(0, 0) =~= Seq::<(String, Json)>::empty());
    while i < fields.len()
        invariant
            i <= fields@.len(),
            t.wf(),
            string_members(fields@.subrange(0, i as int)) == Some(t@),
        decreases fields@.len() - i,
    {
        let ghost before = t@;
        assert(fields@.subrange(0, i + 1).drop_last() =~= fields@.subrange(0, i as int));
        assert(fields@.subrange(0, i + 1).last() == fields@[i as int]);
        match &fields[i].1 {
            Json::Str(v) => {
                proof {
                    lemma_sorted_insert_sorted(before, fields@[i as int].0@, v@);
                }
                t.insert(fields[i].0.clone(), v.clone());
            },
            _ => {
                proof {
                    lemma_no_strings_after(fields@, i as int + 1);
                }
                return None;
            },
        }
        i = i + 1;
    }
    assert(fields@.subrange(0, fields@.len() as int) =~= fields@);
    Some(t)
}

/// Once a prefix holds a member that is not a string, so does every longer one.
proof fn lemma_no_strings_after(fields: Seq<(String, Json)>, i: int)
    requires
        0 < i <= fields.len(),
        string_members(fields.subrange(0, i)) is None,
    ensures
        string_members(fields) is None,
    decreases fields.len() - i,
{
    if i < fields.len() {
        assert(fields.subrange(0, i + 1).drop_last() =~= fields.subrange(0, i));
        lemma_no_strings_after(fields, i + 1);
    } else {
        assert(fields.subrange(0, i) =~= fields);
    }
}

} // verus!

//! JSON values: the instances that a schema is asked about, and the values
//! that a schema carries as metadata.

use vstd::prelude::*;
use crate::number::Number;

verus! {

/// A JSON value. The members of an object are kept in order; a lookup by
/// name finds the first member of that name.
#[derive(Debug, PartialEq)]
pub enum Json {
    Null,
    Bool(bool),
    Number(Number),
    String(String),
    Array(Vec<Json>),
    Object(Vec<(String, Json)>),
}

/// A JSON value as a mathematical value.
pub enum JsonView {
    Null,
    Bool(bool),
    Number(Number),
    String(Seq<char>),
    Array(Seq<JsonView>),
    Object(Seq<(Seq<char>, JsonView)>),
}

/// The mathematical value of a JSON value.
pub open spec fn json_view(j: Json) -> JsonView
    decreases j,
{
    match j {
        Json::Null => JsonView::Null,
        Json::Bool(b) => JsonView::Bool(b),
        Json::Number(n) => JsonView::Number(n),
        Json::String(s) => JsonView::String(s@),
        Json::Array(items) => JsonView::Array(
            Seq::new(
                items@.len(),
                |i: int|
                    if 0 <= i < items@.len() {
                        json_view(items@[i])
                    } else {
                        JsonView::Null
                    },
            ),
        ),
        Json::Object(members) => JsonView::Object(
            Seq::new(
                members@.len(),
                |i: int|
                    if 0 <= i < members@.len() {
                        (members@[i].0@, json_view(members@[i].1))
                    } else {
                        (Seq::empty(), JsonView::Null)
                    },
            ),
        ),
    }
}

impl View for Json {
    type V = JsonView;

    open spec fn view(&self) -> JsonView {
        json_view(*self)
    }
}

/// The items of a vector by their views.
pub open spec fn items_view(items: Seq<Json>) -> Seq<JsonView> {
    Seq::new(items.len(), |i: int| items[i]@)
}

/// The views of the elements of an array are the elements by their views.
pub proof fn lemma_items_view(j: Json)
    ensures
        j matches Json::Array(items) ==> j@ == JsonView::Array(items_view(items@)),
{
    match j {
        Json::Array(items) => {
            assert(j@->Array_0 =~= items_view(items@));
        },
        _ => {},
    }
}

/// The views of the members of an object are the members by their views.
pub proof fn lemma_members_view(j: Json)
    ensures
        j matches Json::Object(members) ==> j@ == JsonView::Object(
            crate::entries::entries_view(members@),
        ),
{
    match j {
        Json::Object(members) => {
            assert(j@->Object_0 =~= crate::entries::entries_view(members@));
        },
        _ => {},
    }
}

/// A copy of the members of an object.
pub fn clone_members(members: &Vec<(String, Json)>) -> (r: Vec<(String, Json)>)
    ensures
        crate::entries::entries_view(r@) == crate::entries::entries_view(members@),
    decreases members, 0int,
{
    let mut out: Vec<(String, Json)> = Vec::new();
    let mut i: usize = 0;
    while i < members.len()
        invariant
            i <= members.len(),
            out@.len() == i,
            forall|j: int| 0 <= j < i ==> out@[j].0@ == members@[j].0@ && out@[j].1@ == members@[j].1@,
        decreases members, 0int, members.len() - i,
    {
        let name = members[i].0.clone();
        let value = members[i].1.clone();
        out.push((name, value));
        i = i + 1;
    }
    assert(crate::entries::entries_view(out@) =~= crate::entries::entries_view(members@));
    out
}

impl Clone for Json {
    /// A copy of this value.
    fn clone(&self) -> (r: Json)
        ensures
            r@ == self@,
        decreases self, 1int,
    {
        match self {
            Json::Null => Json::Null,
            Json::Bool(b) => Json::Bool(*b),
            Json::Number(n) => Json::Number(*n),
            Json::String(s) => Json::String(s.clone()),
            Json::Array(items) => {
                let mut out: Vec<Json> = Vec::new();
                let mut i: usize = 0;
                while i < items.len()
                    invariant
                        i <= items.len(),
                        out@.len() == i,
                        decreases_to!(self => items),
                        forall|j: int| 0 <= j < i ==> out@[j]@ == items@[j]@,
                    decreases self, 0int, items.len() - i,
                {
                    let item = items[i].clone();
                    out.push(item);
                    i = i + 1;
                }
                let r = Json::Array(out);
                proof {
                    lemma_items_view(r);
                    lemma_items_view(*self);
                    assert(items_view(out@) =~= items_view(items@));
                }
                r
            },
            Json::Object(members) => {
                let r = Json::Object(clone_members(members));
                proof {
                    lemma_members_view(r);
                    lemma_members_view(*self);
                }
                r
            },
        }
    }
}

} // verus!

//! JSON values, as far as records are built from them.
//!
//! A value is held as a tree of plain values. A number is held as it is
//! written. The members of an object are held as a list, in which the first
//! member under a key is the member under that key.

use vstd::prelude::*;

verus! {

/// A JSON value.
#[derive(Debug, PartialEq, Eq)]
pub enum Json {
    Null,
    Bool(bool),
    Number(String),
    Text(String),
    List(Vec<Json>),
    Object(Vec<(String, Json)>),
}

/// What a JSON value is, as plain values.
pub enum JsonView {
    Null,
    Bool(bool),
    Number(Seq<char>),
    Text(Seq<char>),
    List(Seq<JsonView>),
    Object(Seq<(Seq<char>, JsonView)>),
}

impl View for Json {
    type V = JsonView;

    open spec fn view(&self) -> JsonView
        decreases self,
    {
        match self {
            Json::Null => JsonView::Null,
            Json::Bool(value) => JsonView::Bool(*value),
            Json::Number(text) => JsonView::Number(text@),
            Json::Text(text) => JsonView::Text(text@),
            Json::List(items) => JsonView::List(item_views(items@)),
            Json::Object(members) => JsonView::Object(member_views(members@)),
        }
    }
}

/// The items of a list, as plain values.
pub open spec fn item_views(items: Seq<Json>) -> Seq<JsonView>
    decreases items,
{
    Seq::new(
        items.len(),
        |i: int|
            if 0 <= i < items.len() {
                items[i]@
            } else {
                JsonView::Null
            },
    )
}

/// The members of an object, as plain values.
pub open spec fn member_views(members: Seq<(String, Json)>) -> Seq<(Seq<char>, JsonView)>
    decreases members,
{
    Seq::new(
        members.len(),
        |i: int|
            if 0 <= i < members.len() {
                (members[i].0@, members[i].1@)
            } else {
                (Seq::empty(), JsonView::Null)
            },
    )
}

/// The place of the first member under `key` at or behind `from`, if there
/// is one.
pub open spec fn place_under(members: Seq<(Seq<char>, JsonView)>, key: Seq<char>, from: int) -> Option<
    int,
>
    decreases members.len() - from,
{
    if from < 0 || from >= members.len() {
        None
    } else if members[from].0 == key {
        Some(from)
    } else {
        place_under(members, key, from + 1)
    }
}

impl JsonView {
    /// The value after `other` is merged into it. An object merged into an
    /// object gives the object with each member of the other merged into
    /// it; in every other case the other value takes the place of this one.
    pub open spec fn merged(self, other: JsonView) -> JsonView
        decreases other, 0nat,
    {
        match (self, other) {
            (JsonView::Object(mine), JsonView::Object(theirs)) => JsonView::Object(
                merged_members(mine, theirs, theirs.len()),
            ),
            _ => other,
        }
    }
}

/// The members `mine` after the first `upto` of the members `theirs` are
/// merged into them, one after the other. A member is merged into the first
/// member under its key; where there is none, it is put behind the others.
pub open spec fn merged_members(
    mine: Seq<(Seq<char>, JsonView)>,
    theirs: Seq<(Seq<char>, JsonView)>,
    upto: nat,
) -> Seq<(Seq<char>, JsonView)>
    decreases theirs, upto,
{
    if upto == 0 || upto > theirs.len() {
        mine
    } else {
        let before = merged_members(mine, theirs, (upto - 1) as nat);
        let member = theirs[upto - 1];
        match place_under(before, member.0, 0) {
            Some(at) => before.update(at, (member.0, before[at].1.merged(member.1))),
            None => before.push(member),
        }
    }
}

/// The place of the first member under `key`, if there is one.
fn find_member(members: &Vec<(String, Json)>, key: &String) -> (found: Option<usize>)
    ensures
        match place_under(member_views(members@), key@, 0) {
            Some(at) => found == Some(at as usize) && 0 <= at < members.len() && members[at].0@
                == key@,
            None => found is None,
        },
{
    let ghost views = member_views(members@);
    let mut i: usize = 0;
    while i < members.len()
        invariant
            i <= members.len(),
            views == member_views(members@),
            place_under(views, key@, 0) == place_under(views, key@, i as int),
        decreases members.len() - i,
    {
        if members[i].0 == *key {
            return Some(i);
        }
        i += 1;
    }
    None
}

impl Json {
    /// A copy of the value.
    pub fn copy(&self) -> (copy: Json)
        ensures
            copy@ == self@,
        decreases self,
    {
        match self {
            Json::Null => Json::Null,
            Json::Bool(value) => Json::Bool(*value),
            Json::Number(text) => Json::Number(text.clone()),
            Json::Text(text) => Json::Text(text.clone()),
            Json::List(items) => {
                let mut copies: Vec<Json> = Vec::new();
                let mut i: usize = 0;
                while i < items.len()
                    invariant
                        i <= items.len(),
                        *self == Json::List(*items),
                        copies.len() == i,
                        forall|j: int| 0 <= j < i ==> copies[j]@ == items[j]@,
                    decreases items.len() - i,
                {
                    proof {
                        assert(self->List_0 == *items);
                        assert(decreases_to!(*self => self->List_0));
                        assert(decreases_to!(*items => items[i as int]));
                    }
                    copies.push(items[i].copy());
                    i += 1;
                }
                assert(item_views(copies@) =~= item_views(items@));
                Json::List(copies)
            },
            Json::Object(members) => {
                let mut copies: Vec<(String, Json)> = Vec::new();
                let mut i: usize = 0;
                while i < members.len()
                    invariant
                        i <= members.len(),
                        *self == Json::Object(*members),
                        copies.len() == i,
                        forall|j: int|
                            0 <= j < i ==> copies[j].0@ == members[j].0@ && copies[j].1@
                                == members[j].1@,
                    decreases members.len() - i,
                {
                    proof {
                        assert(self->Object_0 == *members);
                        assert(decreases_to!(*self => self->Object_0));
                        assert(decreases_to!(*members => members[i as int]));
                        assert(decreases_to!(members[i as int] => members[i as int].1));
                    }
                    copies.push((members[i].0.clone(), members[i].1.copy()));
                    i += 1;
                }
                assert(member_views(copies@) =~= member_views(members@));
                Json::Object(copies)
            },
        }
    }

    /// The value with `other` merged into it.
    pub fn merged_with(self, other: &Json) -> (merged: Json)
        ensures
            merged@ == self@.merged(other@),
        decreases other,
    {
        match (self, other) {
            (Json::Object(mine), Json::Object(theirs)) => {
                let ghost start = member_views(mine@);
                let ghost views = member_views(theirs@);
                let mut mine = mine;
                let mut i: usize = 0;
                while i < theirs.len()
                    invariant
                        i <= theirs.len(),
                        other->Object_0 == *theirs,
                        other is Object,
                        views == member_views(theirs@),
                        member_views(mine@) == merged_members(start, views, i as nat),
                    decreases theirs.len() - i,
                {
                    let ghost before = member_views(mine@);
                    proof {
                        assert(decreases_to!(*other => other->Object_0));
                        assert(decreases_to!(*theirs => theirs[i as int]));
                        assert(decreases_to!(theirs[i as int] => theirs[i as int].1));
                        assert(views[i as int] == (theirs[i as int].0@, theirs[i as int].1@));
                    }
                    match find_member(&mine, &theirs[i].0) {
                        Some(at) => {
                            let slot = &mut mine[at];
                            let mut value = Json::Null;
                            std::mem::swap(&mut slot.1, &mut value);
                            slot.1 = value.merged_with(&theirs[i].1);
                            assert(member_views(mine@) =~= before.update(
                                at as int,
                                (views[i as int].0, before[at as int].1.merged(views[i as int].1)),
                            ));
                        },
                        None => {
                            mine.push((theirs[i].0.clone(), theirs[i].1.copy()));
                            assert(member_views(mine@) =~= before.push(views[i as int]));
                        },
                    }
                    i += 1;
                }
                let merged = Json::Object(mine);
                merged
            },
            _ => other.copy(),
        }
    }

    /// Merges `other` into the value.
    pub fn merge(&mut self, other: &Json)
        ensures
            final(self)@ == old(self)@.merged(other@),
    {
        let mut taken = Json::Null;
        std::mem::swap(self, &mut taken);
        *self = taken.merged_with(other);
    }
}

} // verus!

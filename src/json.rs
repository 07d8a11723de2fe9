//! A plain model of JSON values, as the control plane reads them.
use vstd::prelude::*;

verus! {

/// A JSON value. Numbers keep their textual form; object entries keep
/// their order, and a key is looked up first-match.
#[derive(Debug, PartialEq)]
pub enum Json {
    Null,
    Bool(bool),
    Number(String),
    Str(String),
    Array(Vec<Json>),
    Object(Vec<(String, Json)>),
}

/// The mathematical value of a [`Json`].
pub enum JsonView {
    Null,
    Bool(bool),
    Number(Seq<char>),
    Str(Seq<char>),
    Array(Seq<JsonView>),
    Object(Seq<(Seq<char>, JsonView)>),
}

pub open spec fn view_of(j: Json) -> JsonView
    decreases j,
{
    match j {
        Json::Null => JsonView::Null,
        Json::Bool(b) => JsonView::Bool(b),
        Json::Number(s) => JsonView::Number(s@),
        Json::Str(s) => JsonView::Str(s@),
        Json::Array(v) => JsonView::Array(
            Seq::new(
                v@.len(),
                |i: int|
                    if 0 <= i < v@.len() {
                        view_of(v@[i])
                    } else {
                        JsonView::Null
                    },
            ),
        ),
        Json::Object(e) => JsonView::Object(
            Seq::new(
                e@.len(),
                |i: int|
                    if 0 <= i < e@.len() {
                        (e@[i].0@, view_of(e@[i].1))
                    } else {
                        (Seq::empty(), JsonView::Null)
                    },
            ),
        ),
    }
}

impl View for Json {
    type V = JsonView;

    open spec fn view(&self) -> JsonView {
        view_of(*self)
    }
}

/// The views of a sequence of values, element by element.
pub open spec fn views(s: Seq<Json>) -> Seq<JsonView> {
    s.map_values(|j: Json| j@)
}

/// The value under `key` among object entries: the first entry with that key.
pub open spec fn entry_value(entries: Seq<(Seq<char>, JsonView)>, key: Seq<char>) -> Option<
    JsonView,
>
    decreases entries.len(),
{
    if entries.len() == 0 {
        None
    } else if entries[0].0 == key {
        Some(entries[0].1)
    } else {
        entry_value(entries.drop_first(), key)
    }
}

impl JsonView {
    /// The value of field `key` when this is an object that has it.
    pub open spec fn field(self, key: Seq<char>) -> Option<JsonView> {
        match self {
            JsonView::Object(entries) => entry_value(entries, key),
            _ => None,
        }
    }
}

impl Json {
    /// Looks up field `key` of an object.
    pub fn get(&self, key: &str) -> (r: Option<&Json>)
        ensures
            match r {
                Some(v) => self@.field(key@) == Some(v@),
                None => self@.field(key@).is_none(),
            },
    {
        match self {
            Json::Object(entries) => {
                let ghost ve = match self@ {
                    JsonView::Object(ve) => ve,
                    _ => Seq::empty(),
                };
                let k = String::from_str(key);
                let mut i: usize = 0;
                assert(ve.skip(0) =~= ve);
                while i < entries.len()
                    invariant
                        0 <= i <= entries@.len(),
                        *self == Json::Object(*entries),
                        self@ == JsonView::Object(ve),
                        ve.len() == entries@.len(),
                        forall|m: int|
                            0 <= m < ve.len() ==> #[trigger] ve[m] == (
                                entries@[m].0@,
                                entries@[m].1@,
                            ),
                        k@ == key@,
                        entry_value(ve, key@) == entry_value(ve.skip(i as int), key@),
                    decreases entries@.len() - i,
                {
                    assert(ve.skip(i as int).drop_first() =~= ve.skip(i + 1));
                    assert(ve.skip(i as int)[0] == ve[i as int]);
                    if entries[i].0 == k {
                        return Some(&entries[i].1);
                    }
                    i = i + 1;
                }
                None
            },
            _ => None,
        }
    }

    /// The elements of an array.
    pub fn as_array(&self) -> (r: Option<&Vec<Json>>)
        ensures
            match r {
                Some(v) => self@ == JsonView::Array(views(v@)),
                None => !(self@ is Array),
            },
    {
        match self {
            Json::Array(v) => {
                assert(views(v@) =~= self@->Array_0);
                Some(v)
            },
            _ => None,
        }
    }

    /// The text when this is a string.
    pub fn as_str(&self) -> (r: Option<&String>)
        ensures
            match r {
                Some(s) => self@ == JsonView::Str(s@),
                None => !(self@ is Str),
            },
    {
        match self {
            Json::Str(s) => Some(s),
            _ => None,
        }
    }
}

/// A copy of a JSON value.
pub fn copy_json(j: &Json) -> (r: Json)
    ensures
        r@ == j@,
    decreases j,
{
    match j {
        Json::Null => Json::Null,
        Json::Bool(b) => Json::Bool(*b),
        Json::Number(s) => Json::Number(s.clone()),
        Json::Str(s) => Json::Str(s.clone()),
        Json::Array(v) => {
            let mut out: Vec<Json> = Vec::new();
            let mut i: usize = 0;
            while i < v.len()
                invariant
                    0 <= i <= v@.len(),
                    *j == Json::Array(*v),
                    out@.len() == i,
                    forall|m: int| 0 <= m < i ==> #[trigger] out@[m]@ == v@[m]@,
                decreases v@.len() - i,
            {
                proof {
                    assert(decreases_to!(*j => (*j)->Array_0));
                    assert(decreases_to!(v => v@));
                    assert(decreases_to!(v@ => v@[i as int]));
                }
                let e = copy_json(&v[i]);
                out.push(e);
                i = i + 1;
            }
            let r = Json::Array(out);
            proof {
                assert(out@.len() == v@.len());
                assert forall|m: int| 0 <= m < v@.len() implies r@->Array_0[m] == j@->Array_0[m] by {
                    assert(out@[m]@ == v@[m]@);
                }
                assert(r@->Array_0 =~= j@->Array_0);
            }
            r
        },
        Json::Object(entries) => {
            let mut out: Vec<(String, Json)> = Vec::new();
            let mut i: usize = 0;
            while i < entries.len()
                invariant
                    0 <= i <= entries@.len(),
                    *j == Json::Object(*entries),
                    out@.len() == i,
                    forall|m: int|
                        0 <= m < i ==> #[trigger] out@[m].0@ == entries@[m].0@ && out@[m].1@
                            == entries@[m].1@,
                decreases entries@.len() - i,
            {
                proof {
                    assert(decreases_to!(*j => (*j)->Object_0));
                    assert(decreases_to!(entries => entries@));
                    assert(decreases_to!(entries@ => entries@[i as int]));
                    assert(decreases_to!(entries@[i as int] => entries@[i as int].1));
                }
                let k = entries[i].0.clone();
                let e = copy_json(&entries[i].1);
                out.push((k, e));
                i = i + 1;
            }
            let r = Json::Object(out);
            proof {
                assert(r@->Object_0 =~= j@->Object_0);
            }
            r
        },
    }
}

impl Clone for Json {
    fn clone(&self) -> (r: Self)
        ensures
            r@ == self@,
    {
        copy_json(self)
    }
}

} // verus!

//! JSON values as the site's structured data uses them, with their mathematical view.
use vstd::prelude::*;

use crate::text::{chars_of, dec, push_dec, str_eq};

verus! {

/// The mathematical form of a JSON value. Numbers keep their text and, when they are
/// unsigned integers, their value; objects keep their entries in order.
pub ghost enum JsonV {
    Null,
    Bool(bool),
    Num(Seq<char>, Option<u64>),
    Str(Seq<char>),
    Arr(Seq<JsonV>),
    Obj(Seq<(Seq<char>, JsonV)>),
}

/// A JSON value.
#[derive(Debug)]
pub enum Json {
    Null,
    Bool(bool),
    /// A number: its text, and its value when it is an unsigned 64-bit integer.
    Num(String, Option<u64>),
    Str(String),
    Arr(Vec<Json>),
    Obj(Vec<(String, Json)>),
}

impl Json {
    /// The mathematical form of this value.
    pub open spec fn view(&self) -> JsonV
        decreases self,
    {
        match self {
            Json::Null => JsonV::Null,
            Json::Bool(b) => JsonV::Bool(*b),
            Json::Num(t, v) => JsonV::Num(t@, *v),
            Json::Str(s) => JsonV::Str(s@),
            Json::Arr(items) => JsonV::Arr(
                Seq::new(
                    items@.len(),
                    |i: int|
                        if 0 <= i < items@.len() {
                            items@[i].view()
                        } else {
                            JsonV::Null
                        },
                ),
            ),
            Json::Obj(m) => JsonV::Obj(
                Seq::new(
                    m@.len(),
                    |i: int|
                        if 0 <= i < m@.len() {
                            (m@[i].0@, m@[i].1.view())
                        } else {
                            (Seq::empty(), JsonV::Null)
                        },
                ),
            ),
        }
    }
}

/// The views of a list of values.
pub open spec fn views(s: Seq<Json>) -> Seq<JsonV> {
    Seq::new(s.len(), |i: int| s[i].view())
}

/// The views of a list of object entries.
pub open spec fn entry_views(s: Seq<(String, Json)>) -> Seq<(Seq<char>, JsonV)> {
    Seq::new(s.len(), |i: int| (s[i].0@, s[i].1.view()))
}

/// An array's view is the views of its items.
pub proof fn lemma_arr_view(items: Vec<Json>)
    ensures
        Json::Arr(items).view() == JsonV::Arr(views(items@)),
{
    let w = Json::Arr(items).view();
    assert forall|i: int| 0 <= i < items@.len() implies w->Arr_0[i] == items@[i].view() by {}
    assert(w->Arr_0 =~= views(items@));
}

/// An object's view is the views of its entries.
pub proof fn lemma_obj_view(m: Vec<(String, Json)>)
    ensures
        Json::Obj(m).view() == JsonV::Obj(entry_views(m@)),
{
    let w = Json::Obj(m).view();
    assert forall|i: int| 0 <= i < m@.len() implies w->Obj_0[i] == (m@[i].0@, m@[i].1.view()) by {}
    assert(w->Obj_0 =~= entry_views(m@));
}

// ---------------------------------------------------------------------------
// Reading values
// ---------------------------------------------------------------------------
/// The value stored under the first entry named `k`.
pub open spec fn lookup_entries(m: Seq<(Seq<char>, JsonV)>, k: Seq<char>) -> Option<JsonV>
    decreases m.len(),
{
    if m.len() == 0 {
        None
    } else if m[0].0 == k {
        Some(m[0].1)
    } else {
        lookup_entries(m.drop_first(), k)
    }
}

/// The member `k` of an object, if present.
pub open spec fn jlookup(j: JsonV, k: Seq<char>) -> Option<JsonV> {
    match j {
        JsonV::Obj(m) => lookup_entries(m, k),
        _ => None,
    }
}

/// `j[k]`: the member `k`, or null when `j` is not an object or lacks it.
pub open spec fn jget(j: JsonV, k: Seq<char>) -> JsonV {
    match jlookup(j, k) {
        Some(v) => v,
        None => JsonV::Null,
    }
}

/// The text of a string value.
pub open spec fn jstr(j: JsonV) -> Option<Seq<char>> {
    match j {
        JsonV::Str(s) => Some(s),
        _ => None,
    }
}

/// The text of a string value, or `default`.
pub open spec fn jstr_or(j: JsonV, default: Seq<char>) -> Seq<char> {
    match j {
        JsonV::Str(s) => s,
        _ => default,
    }
}

/// The items of an array value.
pub open spec fn jarr(j: JsonV) -> Option<Seq<JsonV>> {
    match j {
        JsonV::Arr(a) => Some(a),
        _ => None,
    }
}

/// The value of an unsigned integer.
pub open spec fn ju64(j: JsonV) -> Option<u64> {
    match j {
        JsonV::Num(_, v) => v,
        _ => None,
    }
}

/// The member `key` of `j`, if `j` is an object that has it.
pub fn get<'a>(j: &'a Json, key: &str) -> (r: Option<&'a Json>)
    ensures
        r matches Some(v) ==> jlookup(j.view(), key@) == Some(v.view()),
        r is None ==> jlookup(j.view(), key@) is None,
{
    match j {
        Json::Obj(m) => {
            proof {
                lemma_obj_view(*m);
                assert(*j == Json::Obj(*m));
                assert(j.view() == JsonV::Obj(entry_views(m@)));
            }
            let ghost ev = entry_views(m@);
            let mut i: usize = 0;
            assert(ev.skip(0) == ev);
            while i < m.len()
                invariant
                    i <= m@.len(),
                    ev == entry_views(m@),
                    j.view() == JsonV::Obj(ev),
                    lookup_entries(ev, key@) == lookup_entries(ev.skip(i as int), key@),
                decreases m.len() - i,
            {
                assert(ev.skip(i as int)[0] == (m@[i as int].0@, m@[i as int].1.view()));
                if str_eq(m[i].0.as_str(), key) {
                    assert(lookup_entries(ev.skip(i as int), key@) == Some(m@[i as int].1.view()));
                    return Some(&m[i].1);
                }
                assert(ev.skip(i as int).drop_first() == ev.skip(i + 1));
                i += 1;
            }
            None
        },
        _ => None,
    }
}

/// `j[key]` as a value: null when absent.
pub fn get_or_null<'a>(j: &'a Json, key: &str) -> (r: Json)
    ensures
        r.view() == jget(j.view(), key@),
{
    match get(j, key) {
        Some(v) => clone_json(v),
        None => Json::Null,
    }
}

/// The text of a string value.
pub fn as_str(j: &Json) -> (r: Option<&str>)
    ensures
        r matches Some(s) ==> jstr(j.view()) == Some(s@),
        r is None ==> jstr(j.view()) is None,
{
    match j {
        Json::Str(s) => Some(s.as_str()),
        _ => None,
    }
}

/// The text of the string at `j[key]`, or `""`.
pub fn str_member<'a>(j: &'a Json, key: &str) -> (r: &'a str)
    ensures
        r@ == jstr_or(jget(j.view(), key@), ""@),
{
    match get(j, key) {
        Some(v) => match as_str(v) {
            Some(s) => s,
            None => "",
        },
        None => "",
    }
}

/// The items of an array value.
pub fn as_array(j: &Json) -> (r: Option<&Vec<Json>>)
    ensures
        r matches Some(a) ==> jarr(j.view()) == Some(views(a@)),
        r is None ==> jarr(j.view()) is None,
{
    match j {
        Json::Arr(a) => {
            proof {
                lemma_arr_view(*a);
            }
            Some(a)
        },
        _ => None,
    }
}

/// The value of an unsigned integer.
pub fn as_u64(j: &Json) -> (r: Option<u64>)
    ensures
        r == ju64(j.view()),
{
    match j {
        Json::Num(_, v) => *v,
        _ => None,
    }
}

/// A copy of a value.
pub fn clone_json(j: &Json) -> (r: Json)
    ensures
        r.view() == j.view(),
    decreases j,
{
    match j {
        Json::Null => Json::Null,
        Json::Bool(b) => Json::Bool(*b),
        Json::Num(t, v) => Json::Num(t.clone(), *v),
        Json::Str(s) => Json::Str(s.clone()),
        Json::Arr(items) => {
            let mut out: Vec<Json> = Vec::new();
            let mut i: usize = 0;
            while i < items.len()
                invariant
                    i <= items@.len(),
                    *j is Arr,
                    j->Arr_0 == *items,
                    views(out@) == views(items@).take(i as int),
                decreases items.len() - i,
            {
                proof {
                    assert(decreases_to!(*j => j->Arr_0[i as int]));
                }
                let c = clone_json(&items[i]);
                let ghost old_out = out@;
                out.push(c);
                proof {
                    assert(views(out@) =~= views(old_out).push(c.view()));
                    assert(views(items@).take(i + 1) =~= views(items@).take(i as int).push(items@[i as int].view()));
                }
                i += 1;
            }
            proof {
                lemma_arr_view(out);
                lemma_arr_view(*items);
                assert(views(items@).take(items@.len() as int) == views(items@));
            }
            Json::Arr(out)
        },
        Json::Obj(m) => {
            let mut out: Vec<(String, Json)> = Vec::new();
            let mut i: usize = 0;
            while i < m.len()
                invariant
                    i <= m@.len(),
                    *j is Obj,
                    j->Obj_0 == *m,
                    entry_views(out@) == entry_views(m@).take(i as int),
                decreases m.len() - i,
            {
                proof {
                    assert(decreases_to!(*j => j->Obj_0[i as int].1));
                }
                let c = clone_json(&m[i].1);
                let k = m[i].0.clone();
                let ghost old_out = out@;
                out.push((k, c));
                proof {
                    assert(entry_views(out@) =~= entry_views(old_out).push((k@, c.view())));
                    assert(entry_views(m@).take(i + 1) =~= entry_views(m@).take(i as int).push((m@[i as int].0@, m@[i as int].1.view())));
                }
                i += 1;
            }
            proof {
                lemma_obj_view(out);
                lemma_obj_view(*m);
                assert(entry_views(m@).take(m@.len() as int) == entry_views(m@));
            }
            Json::Obj(out)
        },
    }
}

// ---------------------------------------------------------------------------
// Building values
// ---------------------------------------------------------------------------
/// A number value for `n`.
pub open spec fn jnum(n: u64) -> JsonV {
    JsonV::Num(dec(n as nat), Some(n))
}

/// An object `{"@id": id}` referring to a node.
pub open spec fn jref(id: Seq<char>) -> JsonV {
    JsonV::Obj(seq![("@id"@, JsonV::Str(id))])
}

/// A string value.
pub fn jstring(s: &str) -> (r: Json)
    ensures
        r.view() == JsonV::Str(s@),
{
    Json::Str(String::from_str(s))
}

/// A number value.
pub fn jnumber(n: u64) -> (r: Json)
    ensures
        r.view() == jnum(n),
{
    let mut t = String::new();
    push_dec(&mut t, n);
    Json::Num(t, Some(n))
}

/// The reference `{"@id": id}`.
pub fn id_ref(id: &str) -> (r: Json)
    ensures
        r.view() == jref(id@),
{
    let mut m: Vec<(String, Json)> = Vec::new();
    m.push((String::from_str("@id"), jstring(id)));
    proof {
        lemma_obj_view(m);
    }
    assert(entry_views(m@) =~= seq![("@id"@, JsonV::Str(id@))]);
    Json::Obj(m)
}

/// Appends the entry `key: value` to an object under construction.
pub fn put(m: &mut Vec<(String, Json)>, key: &str, value: Json)
    ensures
        entry_views(final(m)@) == entry_views(old(m)@).push((key@, value.view())),
{
    m.push((String::from_str(key), value));
    assert(entry_views(final(m)@) =~= entry_views(old(m)@).push((key@, value.view())));
}

/// Appends an item to an array under construction.
pub fn push_item(a: &mut Vec<Json>, value: Json)
    ensures
        views(final(a)@) == views(old(a)@).push(value.view()),
{
    a.push(value);
    assert(views(final(a)@) =~= views(old(a)@).push(value.view()));
}

/// An object from its entries.
pub fn obj(m: Vec<(String, Json)>) -> (r: Json)
    ensures
        r.view() == JsonV::Obj(entry_views(m@)),
{
    proof {
        lemma_obj_view(m);
    }
    Json::Obj(m)
}

/// An array from its items.
pub fn arr(a: Vec<Json>) -> (r: Json)
    ensures
        r.view() == JsonV::Arr(views(a@)),
{
    proof {
        lemma_arr_view(a);
    }
    Json::Arr(a)
}

} // verus!

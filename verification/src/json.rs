//! JSON values as the request bodies and the service replies carry them.

use vstd::prelude::*;
use crate::text::{chars_of, seq_eq};

verus! {

/// A JSON number in the form it was produced.
#[derive(Clone, Copy, Debug, PartialEq, Eq, Structural)]
pub enum Number {
    /// A non-negative integer.
    PosInt(u64),
    /// A negative integer.
    NegInt(i64),
    /// A double, by its IEEE 754 bit pattern.
    Float(u64),
    /// A single-precision float, by its IEEE 754 bit pattern; it is written out
    /// as the double of the same value.
    Float32(u32),
}

/// A JSON value. Object members keep their order; a key occurs at most once
/// in the objects that this library builds.
#[derive(Debug, PartialEq)]
pub enum Json {
    Null,
    Bool(bool),
    Num(Number),
    Str(String),
    Array(Vec<Json>),
    Object(Vec<(String, Json)>),
}

/// The mathematical value of a [`Json`].
pub enum JsonV {
    Null,
    Bool(bool),
    Num(Number),
    Str(Seq<char>),
    Array(Seq<JsonV>),
    Object(Seq<(Seq<char>, JsonV)>),
}

/// The value that `j` denotes.
pub open spec fn view_json(j: Json) -> JsonV
    decreases j,
{
    match j {
        Json::Null => JsonV::Null,
        Json::Bool(b) => JsonV::Bool(b),
        Json::Num(n) => JsonV::Num(n),
        Json::Str(s) => JsonV::Str(s@),
        Json::Array(items) => JsonV::Array(view_items(items@)),
        Json::Object(entries) => JsonV::Object(view_entries(entries@)),
    }
}

/// The values of a sequence of elements.
pub open spec fn view_items(s: Seq<Json>) -> Seq<JsonV>
    decreases s,
{
    if s.len() == 0 {
        Seq::empty()
    } else {
        seq![view_json(s[0])] + view_items(s.subrange(1, s.len() as int))
    }
}

/// The values of a sequence of object members.
pub open spec fn view_entries(s: Seq<(String, Json)>) -> Seq<(Seq<char>, JsonV)>
    decreases s,
{
    if s.len() == 0 {
        Seq::empty()
    } else {
        seq![(s[0].0@, view_json(s[0].1))] + view_entries(s.subrange(1, s.len() as int))
    }
}


/// The element values line up with the elements.
pub proof fn lemma_view_items(s: Seq<Json>)
    ensures
        view_items(s).len() == s.len(),
        forall|i: int| 0 <= i < s.len() ==> #[trigger] view_items(s)[i] == view_json(s[i]),
    decreases s.len(),
{
    if s.len() > 0 {
        let rest = s.subrange(1, s.len() as int);
        lemma_view_items(rest);
        assert forall|i: int| 0 <= i < s.len() implies #[trigger] view_items(s)[i] == view_json(
            s[i],
        ) by {
            if i > 0 {
                assert(view_items(s)[i] == view_items(rest)[i - 1]);
                assert(rest[i - 1] == s[i]);
            }
        }
    }
}

/// The member values line up with the members.
pub proof fn lemma_view_entries(s: Seq<(String, Json)>)
    ensures
        view_entries(s).len() == s.len(),
        forall|i: int|
            0 <= i < s.len() ==> #[trigger] view_entries(s)[i] == (s[i].0@, view_json(s[i].1)),
    decreases s.len(),
{
    if s.len() > 0 {
        let rest = s.subrange(1, s.len() as int);
        lemma_view_entries(rest);
        assert forall|i: int| 0 <= i < s.len() implies #[trigger] view_entries(s)[i] == (
            s[i].0@,
            view_json(s[i].1),
        ) by {
            if i > 0 {
                assert(view_entries(s)[i] == view_entries(rest)[i - 1]);
                assert(rest[i - 1] == s[i]);
            }
        }
    }
}

/// The value of the first member named `k`.
pub open spec fn lookup(es: Seq<(Seq<char>, JsonV)>, k: Seq<char>) -> Option<JsonV>
    decreases es.len(),
{
    if es.len() == 0 {
        None
    } else if es[0].0 == k {
        Some(es[0].1)
    } else {
        lookup(es.subrange(1, es.len() as int), k)
    }
}

/// The member `k` of an object; nothing for any other value.
pub open spec fn member(v: JsonV, k: Seq<char>) -> Option<JsonV> {
    match v {
        JsonV::Object(es) => lookup(es, k),
        _ => None,
    }
}

/// The member `k` of an optional value.
pub open spec fn member_of(v: Option<JsonV>, k: Seq<char>) -> Option<JsonV> {
    match v {
        Some(x) => member(x, k),
        None => None,
    }
}

/// What the JSON pointer token `0` selects: the first element of an array,
/// or the member named `0` of an object.
pub open spec fn token_zero(v: Option<JsonV>) -> Option<JsonV> {
    match v {
        Some(JsonV::Array(items)) => if items.len() > 0 {
            Some(items[0])
        } else {
            None
        },
        Some(JsonV::Object(es)) => lookup(es, "0"@),
        _ => None,
    }
}

/// The text of a string value.
pub open spec fn text_of(v: Option<JsonV>) -> Option<Seq<char>> {
    match v {
        Some(JsonV::Str(s)) => Some(s),
        _ => None,
    }
}

/// The elements of an array value.
pub open spec fn items_of(v: Option<JsonV>) -> Option<Seq<JsonV>> {
    match v {
        Some(JsonV::Array(items)) => Some(items),
        _ => None,
    }
}

/// The view of an optional reference.
pub open spec fn view_opt(o: Option<&Json>) -> Option<JsonV> {
    match o {
        Some(x) => Some(view_json(*x)),
        None => None,
    }
}

/// The view of an optional string.
pub open spec fn view_text(o: Option<String>) -> Option<Seq<char>> {
    match o {
        Some(s) => Some(s@),
        None => None,
    }
}

impl Json {
    /// A copy of this value.
    pub fn duplicate(&self) -> (r: Json)
        ensures
            view_json(r) == view_json(*self),
        decreases self,
    {
        match self {
            Json::Null => Json::Null,
            Json::Bool(b) => Json::Bool(*b),
            Json::Num(n) => Json::Num(*n),
            Json::Str(s) => Json::Str(s.clone()),
            Json::Array(items) => {
                let mut out: Vec<Json> = Vec::new();
                let mut i: usize = 0;
                proof {
                    lemma_view_items(items@);
                }
                while i < items.len()
                    invariant
                        i <= items.len(),
                        *self == Json::Array(*items),
                        out@.len() == i,
                        view_items(items@).len() == items@.len(),
                        forall|j: int|
                            0 <= j < items@.len() ==> #[trigger] view_items(items@)[j]
                                == view_json(items@[j]),
                        forall|j: int|
                            0 <= j < i ==> #[trigger] view_json(out@[j]) == view_json(items@[j]),
                    decreases items.len() - i,
                {
                    proof {
                        assert(decreases_to!(*self => (*self)->Array_0));
                        assert(decreases_to!(*items => items@));
                        assert(decreases_to!(items@ => items@[i as int]));
                        assert(decreases_to!(*self => items@[i as int]));
                    }
                    let x = items[i].duplicate();
                    out.push(x);
                    i = i + 1;
                }
                proof {
                    lemma_view_items(out@);
                    assert(view_items(out@) =~= view_items(items@));
                }
                Json::Array(out)
            },
            Json::Object(entries) => {
                let mut out: Vec<(String, Json)> = Vec::new();
                let mut i: usize = 0;
                proof {
                    lemma_view_entries(entries@);
                }
                while i < entries.len()
                    invariant
                        i <= entries.len(),
                        *self == Json::Object(*entries),
                        out@.len() == i,
                        view_entries(entries@).len() == entries@.len(),
                        forall|j: int|
                            0 <= j < entries@.len() ==> #[trigger] view_entries(entries@)[j] == (
                                entries@[j].0@,
                                view_json(entries@[j].1),
                            ),
                        forall|j: int|
                            0 <= j < i ==> #[trigger] out@[j].0@ == entries@[j].0@ && view_json(
                                out@[j].1,
                            ) == view_json(entries@[j].1),
                    decreases entries.len() - i,
                {
                    proof {
                        assert(decreases_to!(*self => (*self)->Object_0));
                        assert(decreases_to!(*entries => entries@));
                        assert(decreases_to!(entries@ => entries@[i as int]));
                        assert(decreases_to!(entries@[i as int] => entries@[i as int].1));
                        assert(decreases_to!(*self => entries@[i as int].1));
                    }
                    let v = entries[i].1.duplicate();
                    let k = entries[i].0.clone();
                    out.push((k, v));
                    i = i + 1;
                }
                proof {
                    lemma_view_entries(out@);
                    assert(view_entries(out@) =~= view_entries(entries@));
                }
                Json::Object(out)
            },
        }
    }

    /// The member `key` of an object (`Value::get` with a string index).
    pub fn get(&self, key: &str) -> (r: Option<&Json>)
        ensures
            view_opt(r) == member(view_json(*self), key@),
    {
        match self {
            Json::Object(entries) => {
                let k = chars_of(key);
                let n = entries.len();
                let ghost es = view_entries(entries@);
                proof {
                    lemma_view_entries(entries@);
                    assert(es.subrange(0, n as int) =~= es);
                }
                let mut i: usize = 0;
                while i < n
                    invariant
                        i <= n,
                        n == entries@.len(),
                        es == view_entries(entries@),
                        es.len() == n,
                        view_json(*self) == JsonV::Object(es),
                        forall|j: int|
                            0 <= j < n ==> #[trigger] es[j] == (
                                entries@[j].0@,
                                view_json(entries@[j].1),
                            ),
                        lookup(es, key@) == lookup(es.subrange(i as int, n as int), key@),
                        k@ == key@,
                    decreases n - i,
                {
                    let name = chars_of(entries[i].0.as_str());
                    let ghost rest = es.subrange(i as int, n as int);
                    assert(rest[0] == es[i as int]);
                    if seq_eq(&name, &k) {
                        assert(rest.len() > 0 && rest[0].0 == key@);
                        assert(lookup(rest, key@) == Some(rest[0].1));
                        let r = Some(&entries[i].1);
                        return r;
                    }
                    assert(rest.subrange(1, rest.len() as int) =~= es.subrange(i + 1, n as int));
                    i = i + 1;
                }
                None
            },
            _ => None,
        }
    }

    /// The text of a string value (`Value::as_str`).
    pub fn as_text(&self) -> (r: Option<&String>)
        ensures
            match r {
                Some(s) => text_of(Some(view_json(*self))) == Some(s@),
                None => text_of(Some(view_json(*self))) is None,
            },
    {
        match self {
            Json::Str(s) => Some(s),
            _ => None,
        }
    }

    /// The value that the JSON pointer token `0` selects.
    pub fn token_zero(&self) -> (r: Option<&Json>)
        ensures
            view_opt(r) == token_zero(Some(view_json(*self))),
    {
        match self {
            Json::Array(items) => {
                proof {
                    lemma_view_items(items@);
                }
                assert(view_json(*self) == JsonV::Array(view_items(items@)));
                if items.len() > 0 {
                    assert(view_items(items@)[0] == view_json(items@[0]));
                    let r = Some(&items[0]);
                    r
                } else {
                    None
                }
            },
            Json::Object(_) => self.get("0"),
            _ => None,
        }
    }
}

impl Clone for Json {
    /// A copy with the same value.
    fn clone(&self) -> (r: Json)
        ensures
            view_json(r) == view_json(*self),
    {
        self.duplicate()
    }
}

/// The member `key` of an optional value.
pub fn get_of<'a>(v: Option<&'a Json>, key: &str) -> (r: Option<&'a Json>)
    ensures
        view_opt(r) == member_of(view_opt(v), key@),
{
    match v {
        Some(x) => x.get(key),
        None => None,
    }
}

/// The pointer token `0` applied to an optional value.
pub fn zero_of<'a>(v: Option<&'a Json>) -> (r: Option<&'a Json>)
    ensures
        view_opt(r) == token_zero(view_opt(v)),
{
    match v {
        Some(x) => x.token_zero(),
        None => None,
    }
}

/// An owned copy of the text of an optional string value.
pub fn text_of_opt(v: Option<&Json>) -> (r: Option<String>)
    ensures
        view_text(r) == text_of(view_opt(v)),
{
    match v {
        Some(x) => match x.as_text() {
            Some(s) => Some(s.clone()),
            None => None,
        },
        None => None,
    }
}

} // verus!

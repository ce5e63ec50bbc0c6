//! The stored documents, in their legacy JSON shapes.
//!
//! Every model knows the JSON document it stands for (`model`), writes itself
//! as that document (`to_json`), and reads itself back from a stored document
//! (`from_json`). Reading is strict in the way the stored format is: a member
//! the model does not define, a missing required member, or a member of the
//! wrong JSON type is refused, and an optional member may be absent or `null`.

use vstd::prelude::*;

use crate::json::{Json, NumberModel, JsonNumber, JsonValue, json_clone, members_of, values_of, member, number_clone};
use crate::text::str_eq;
use crate::validation::slice_texts;

verus! {

/// A string member.
pub open spec fn text_member(key: Seq<char>, value: Seq<char>) -> Seq<(Seq<char>, Json)> {
    seq![(key, Json::Str(value))]
}

/// An optional member: present when there is a value.
pub open spec fn opt_member(key: Seq<char>, value: Option<Json>) -> Seq<(Seq<char>, Json)> {
    match value {
        Some(v) => seq![(key, v)],
        None => Seq::empty(),
    }
}

/// An optional string member.
pub open spec fn opt_text(key: Seq<char>, value: Option<String>) -> Seq<(Seq<char>, Json)> {
    match value {
        Some(v) => seq![(key, Json::Str(v@))],
        None => Seq::empty(),
    }
}

/// A document type with a JSON shape.
pub trait Document: Sized {
    /// The JSON document this value is written as.
    spec fn model(&self) -> Json;

    /// Writes this value as its JSON document.
    fn to_json(&self) -> (r: JsonValue)
        ensures
            r@ == self.model();

    /// Whether a stored document has the shape of this type.
    spec fn fits(v: Json) -> bool;

    /// Whether stored document `v` reads as this value.
    spec fn read_from(&self, v: Json) -> bool;

    /// Reads a value from a stored document, or nothing when the document does
    /// not have this shape.
    fn from_json(value: &JsonValue) -> (r: Option<Self>)
        ensures
            match r {
                Some(x) => Self::fits(value@) && x.read_from(value@),
                None => !Self::fits(value@),
            };

    /// A copy of this value.
    fn copy(&self) -> (r: Self)
        ensures
            r.model() == self.model();
}

/// The JSON array a list of documents is written as.
pub open spec fn list_model<T: Document>(items: Seq<T>) -> Json {
    Json::Array(Seq::new(items.len(), |i: int| items[i].model()))
}

/// The JSON array a list of strings is written as.
pub open spec fn texts_model(items: Seq<String>) -> Json {
    Json::Array(Seq::new(items.len(), |i: int| Json::Str(items[i]@)))
}

/// Writes a list of documents.
pub fn list_to_json<T: Document>(items: &Vec<T>) -> (r: JsonValue)
    ensures
        r@ == list_model(items@),
{
    let mut out: Vec<JsonValue> = Vec::new();
    let mut i: usize = 0;
    while i < items.len()
        invariant
            i <= items.len(),
            out@.len() == i,
            forall|k: int| 0 <= k < i ==> out@[k]@ == items@[k].model(),
        decreases items.len() - i,
    {
        out.push(items[i].to_json());
        i = i + 1;
    }
    let r = JsonValue::Array(out);
    assert(values_of(out@) =~= Seq::new(items@.len(), |k: int| items@[k].model()));
    proof { crate::json::lemma_array_model(out); }
    r
}

/// Copies a list of documents.
pub fn list_copy<T: Document>(items: &Vec<T>) -> (r: Vec<T>)
    ensures
        r@.len() == items@.len(),
        forall|k: int| 0 <= k < items@.len() ==> r@[k].model() == items@[k].model(),
        list_model(r@) == list_model(items@),
{
    let mut out: Vec<T> = Vec::new();
    let mut i: usize = 0;
    while i < items.len()
        invariant
            i <= items.len(),
            out@.len() == i,
            forall|k: int| 0 <= k < i ==> out@[k].model() == items@[k].model(),
        decreases items.len() - i,
    {
        out.push(items[i].copy());
        i = i + 1;
    }
    assert(list_model(out@)->Array_0 =~= list_model(items@)->Array_0);
    out
}

/// Reads a list of documents; nothing when the value is not an array or one
/// of its elements does not have the shape.
pub fn list_from_json<T: Document>(value: &JsonValue) -> (r: Option<Vec<T>>)
    ensures
        match r {
            Some(v) => list_fits::<T>(value@) && list_read::<T>(v@, value@),
            None => !list_fits::<T>(value@),
        },
{
    match value {
        JsonValue::Array(items) => {
            proof { crate::json::lemma_array_model(*items); }
            let ghost all = values_of(items@);
            let mut out: Vec<T> = Vec::new();
            let mut i: usize = 0;
            while i < items.len()
                invariant
                    i <= items.len(),
                    out@.len() == i,
                    all == values_of(items@),
                    value@ == Json::Array(all),
                    forall|k: int| 0 <= k < i ==> T::fits(#[trigger] all[k]),
                    forall|k: int| 0 <= k < i ==> #[trigger] out@[k].read_from(all[k]),
                decreases items.len() - i,
            {
                match T::from_json(&items[i]) {
                    Some(x) => {
                        out.push(x);
                    },
                    None => {
                        assert(!T::fits(all[i as int]));
                        assert(value@->Array_0 == all);
                        assert(0 <= i < all.len());
                        assert(!list_fits::<T>(value@));
                        return None;
                    },
                }
                i = i + 1;
            }
            Some(out)
        },
        _ => None,
    }
}

/// Writes a list of strings.
pub fn texts_to_json(items: &Vec<String>) -> (r: JsonValue)
    ensures
        r@ == texts_model(items@),
{
    let mut out: Vec<JsonValue> = Vec::new();
    let mut i: usize = 0;
    while i < items.len()
        invariant
            i <= items.len(),
            out@.len() == i,
            forall|k: int| 0 <= k < i ==> out@[k]@ == Json::Str(items@[k]@),
        decreases items.len() - i,
    {
        out.push(JsonValue::Str(items[i].clone()));
        i = i + 1;
    }
    assert(values_of(out@) =~= Seq::new(items@.len(), |k: int| Json::Str(items@[k]@)));
    proof { crate::json::lemma_array_model(out); }
    JsonValue::Array(out)
}

/// Reads a list of strings.
pub fn texts_from_json(value: &JsonValue) -> (r: Option<Vec<String>>)
    ensures
        r matches Some(v) ==> texts_model(v@) == value@,
        r is None ==> !texts_fit(value@),
{
    match value {
        JsonValue::Array(items) => {
            proof { crate::json::lemma_array_model(*items); }
            let mut out: Vec<String> = Vec::new();
            let mut i: usize = 0;
            while i < items.len()
                invariant
                    i <= items.len(),
                    out@.len() == i,
                    forall|k: int| 0 <= k < i ==> Json::Str(out@[k]@) == items@[k]@,
                    value@ == Json::Array(values_of(items@)),
                decreases items.len() - i,
            {
                match &items[i] {
                    JsonValue::Str(s) => out.push(s.clone()),
                    _ => {
                        assert(!(values_of(items@)[i as int] is Str));
                        assert(!(value@->Array_0[i as int] is Str));
                        return None;
                    },
                }
                i = i + 1;
            }
            assert(texts_model(out@)->Array_0 =~= values_of(items@));
            Some(out)
        },
        _ => None,
    }
}

/// Copies a list of strings.
pub fn texts_copy(items: &Vec<String>) -> (r: Vec<String>)
    ensures
        r@ == items@,
{
    let mut out: Vec<String> = Vec::new();
    let mut i: usize = 0;
    while i < items.len()
        invariant
            i <= items.len(),
            out@.len() == i,
            forall|k: int| 0 <= k < i ==> out@[k] == items@[k],
        decreases items.len() - i,
    {
        out.push(items[i].clone());
        i = i + 1;
    }
    assert(out@ =~= items@);
    out
}

/// Appends a string member.
pub fn push_text(m: &mut Vec<(String, JsonValue)>, key: &str, value: &String)
    ensures
        members_of(final(m)@) == members_of(old(m)@) + text_member(key@, value@),
{
    m.push((key.to_owned(), JsonValue::Str(value.clone())));
    assert(members_of(m@) =~= members_of(old(m)@) + text_member(key@, value@));
}

/// Appends an optional string member.
pub fn push_opt_text(m: &mut Vec<(String, JsonValue)>, key: &str, value: &Option<String>)
    ensures
        members_of(final(m)@) == members_of(old(m)@) + opt_text(key@, *value),
{
    match value {
        Some(v) => {
            m.push((key.to_owned(), JsonValue::Str(v.clone())));
            assert(members_of(m@) =~= members_of(old(m)@) + opt_text(key@, *value));
        },
        None => {
            assert(members_of(m@) =~= members_of(old(m)@) + opt_text(key@, *value));
        },
    }
}

/// Appends a member holding `value`.
pub fn push_member(m: &mut Vec<(String, JsonValue)>, key: &str, value: JsonValue)
    ensures
        members_of(final(m)@) == members_of(old(m)@) + seq![(key@, value@)],
{
    m.push((key.to_owned(), value));
    assert(members_of(m@) =~= members_of(old(m)@) + seq![(key@, value@)]);
}

/// Appends an optional member.
pub fn push_opt_member(m: &mut Vec<(String, JsonValue)>, key: &str, value: Option<JsonValue>)
    ensures
        members_of(final(m)@) == members_of(old(m)@) + opt_member(key@, match value { Some(v) => Some(v@), None => None }),
{
    match value {
        Some(v) => {
            let ghost j = v@;
            m.push((key.to_owned(), v));
            assert(members_of(m@) =~= members_of(old(m)@) + seq![(key@, j)]);
        },
        None => {
            assert(members_of(m@) =~= members_of(old(m)@) + Seq::<(Seq<char>, Json)>::empty());
        },
    }
}

/// The outcome of reading an optional member.
#[derive(Debug)]
pub enum Field<T> {
    Present(T),
    Invalid,
}

/// Whether every member of `ms` is named in `names`.
pub open spec fn keys_named(ms: Seq<(Seq<char>, Json)>, names: Seq<Seq<char>>) -> bool {
    forall|i: int| 0 <= i < ms.len() ==> names.contains(#[trigger] ms[i].0)
}

/// Whether every member of object `v` is named in `names`.
pub open spec fn keys_among(v: Json, names: Seq<Seq<char>>) -> bool {
    match v {
        Json::Object(ms) => keys_named(ms, names),
        _ => false,
    }
}

/// Whether an optional member is absent or `null`.
pub open spec fn nullish(j: Option<Json>) -> bool {
    match j {
        None => true,
        Some(Json::Null) => true,
        _ => false,
    }
}

/// Whether an optional string member reads: absent, `null` or a string.
pub open spec fn text_fits(j: Option<Json>) -> bool {
    nullish(j) || j matches Some(Json::Str(_))
}

/// Whether optional string member `j` reads as `x`.
pub open spec fn text_read(x: Option<String>, j: Option<Json>) -> bool {
    match x {
        Some(s) => j == Some(Json::Str(s@)),
        None => nullish(j),
    }
}

/// Whether an optional unsigned member reads: absent, `null` or an unsigned
/// integer.
pub open spec fn unsigned_fits(j: Option<Json>) -> bool {
    nullish(j) || j matches Some(Json::Number(NumberModel::Unsigned(_)))
}

/// Whether optional unsigned member `j` reads as `x`.
pub open spec fn unsigned_read(x: Option<u64>, j: Option<Json>) -> bool {
    match x {
        Some(n) => j == Some(Json::Number(NumberModel::Unsigned(n))),
        None => nullish(j),
    }
}

/// Whether an optional boolean member reads: absent, `null` or a boolean.
pub open spec fn flag_fits(j: Option<Json>) -> bool {
    nullish(j) || j matches Some(Json::Bool(_))
}

/// Whether optional boolean member `j` reads as `x`.
pub open spec fn flag_read(x: Option<bool>, j: Option<Json>) -> bool {
    match x {
        Some(b) => j == Some(Json::Bool(b)),
        None => nullish(j),
    }
}

/// Whether `a` is an array of strings.
pub open spec fn texts_fit(a: Json) -> bool {
    a is Array && forall|k: int| 0 <= k < a->Array_0.len() ==> (#[trigger] a->Array_0[k]) is Str
}

/// Whether an optional list of strings reads: absent, `null` or an array of
/// strings.
pub open spec fn texts_fits(j: Option<Json>) -> bool {
    nullish(j) || (j matches Some(a) && texts_fit(a))
}

/// Whether optional list of strings `j` reads as `x`.
pub open spec fn texts_read(x: Option<Vec<String>>, j: Option<Json>) -> bool {
    match x {
        Some(t) => j == Some(texts_model(t@)),
        None => nullish(j),
    }
}

/// Whether `a` is an array whose elements all have the shape of `T`.
pub open spec fn list_fits<T: Document>(a: Json) -> bool {
    match a {
        Json::Array(items) => forall|k: int| 0 <= k < items.len() ==> T::fits(#[trigger] items[k]),
        _ => false,
    }
}

/// Whether array `a` reads as `xs`, element by element.
pub open spec fn list_read<T: Document>(xs: Seq<T>, a: Json) -> bool {
    match a {
        Json::Array(items) => xs.len() == items.len()
            && forall|k: int| 0 <= k < items.len() ==> #[trigger] xs[k].read_from(items[k]),
        _ => false,
    }
}

/// Whether an optional list of documents reads: absent, `null` or an array of
/// documents of the shape of `T`.
pub open spec fn docs_fit<T: Document>(j: Option<Json>) -> bool {
    nullish(j) || (j matches Some(a) && list_fits::<T>(a))
}

/// Whether optional list of documents `j` reads as `x`.
pub open spec fn docs_read<T: Document>(x: Option<Vec<T>>, j: Option<Json>) -> bool {
    match x {
        Some(xs) => j matches Some(a) && list_read::<T>(xs@, a),
        None => nullish(j),
    }
}

/// Whether a required list of documents reads.
pub open spec fn required_docs_fit<T: Document>(j: Option<Json>) -> bool {
    j matches Some(a) && list_fits::<T>(a)
}

/// Whether required list of documents `j` reads as `xs`.
pub open spec fn required_docs_read<T: Document>(xs: Seq<T>, j: Option<Json>) -> bool {
    j matches Some(a) && list_read::<T>(xs, a)
}

/// Whether every member of `a`, an object, holds an unsigned integer.
pub open spec fn versions_fit(a: Json) -> bool {
    match a {
        Json::Object(ms) => forall|k: int| 0 <= k < ms.len() ==> (#[trigger] ms[k]).1 matches Json::Number(NumberModel::Unsigned(_)),
        _ => false,
    }
}

/// Whether optional pinned versions read: absent, `null` or an object of
/// unsigned integers.
pub open spec fn pinned_fits(j: Option<Json>) -> bool {
    nullish(j) || (j matches Some(a) && versions_fit(a))
}

/// Whether optional pinned versions `j` read as `x`.
pub open spec fn pinned_read(x: Option<Vec<(String, u64)>>, j: Option<Json>) -> bool {
    match x {
        Some(vs) => j == Some(versions_model(vs@)),
        None => nullish(j),
    }
}

/// Whether every member of an object is one of `allowed`.
pub fn keys_within(value: &JsonValue, allowed: &[&'static str]) -> (r: bool)
    ensures
        r == keys_among(value@, slice_texts(allowed@)),
{
    match value {
        JsonValue::Object(m) => {
            proof { crate::json::lemma_object_model(*m); }
            let ghost ms = members_of(m@);
            let ghost names = slice_texts(allowed@);
            let mut i: usize = 0;
            while i < m.len()
                invariant
                    i <= m.len(),
                    ms == members_of(m@),
                    names == slice_texts(allowed@),
                    value@ == Json::Object(ms),
                    forall|j: int| 0 <= j < i ==> names.contains(#[trigger] ms[j].0),
                decreases m.len() - i,
            {
                let mut found = false;
                let mut k: usize = 0;
                while k < allowed.len()
                    invariant
                        k <= allowed@.len(),
                        i < m.len(),
                        ms == members_of(m@),
                        names == slice_texts(allowed@),
                        names.len() == allowed@.len(),
                        value@ == Json::Object(ms),
                        found <==> exists|j: int| 0 <= j < k && names[j] == ms[i as int].0,
                    decreases allowed@.len() - k,
                {
                    if str_eq(m[i].0.as_str(), allowed[k]) {
                        assert(names[k as int] == ms[i as int].0);
                        found = true;
                    }
                    k = k + 1;
                }
                if !found {
                    assert(!names.contains(ms[i as int].0));
                    assert(value@ is Object);
                    assert(value@->Object_0 == ms);
                    assert(0 <= i < ms.len());
                    assert(!keys_among(value@, names));
                    return false;
                }
                i = i + 1;
            }
            true
        },
        _ => false,
    }
}

/// A required string member.
pub fn required_text(value: &JsonValue, key: &str) -> (r: Option<String>)
    ensures
        r matches Some(s) ==> value@.str_at(key@) == Some(s@),
        r is None ==> value@.str_at(key@) is None,
{
    match value.str_at(key) {
        Some(s) => Some(s.clone()),
        None => None,
    }
}

/// An optional string member: absent or `null` is `None`.
pub fn optional_text(value: &JsonValue, key: &str) -> (r: Field<Option<String>>)
    ensures
        match r {
            Field::Present(x) => text_fits(value@.get(key@)) && text_read(x, value@.get(key@)),
            Field::Invalid => !text_fits(value@.get(key@)),
        },
{
    match value.get(key) {
        None => Field::Present(None),
        Some(JsonValue::Null) => Field::Present(None),
        Some(JsonValue::Str(s)) => Field::Present(Some(s.clone())),
        Some(_) => Field::Invalid,
    }
}

/// An optional unsigned member: absent or `null` is `None`.
pub fn optional_u64(value: &JsonValue, key: &str) -> (r: Field<Option<u64>>)
    ensures
        match r {
            Field::Present(x) => unsigned_fits(value@.get(key@)) && unsigned_read(x, value@.get(key@)),
            Field::Invalid => !unsigned_fits(value@.get(key@)),
        },
{
    match value.get(key) {
        None => Field::Present(None),
        Some(JsonValue::Null) => Field::Present(None),
        Some(JsonValue::Number(JsonNumber::Unsigned(n))) => Field::Present(Some(*n)),
        Some(_) => Field::Invalid,
    }
}

/// An optional boolean member: absent or `null` is `None`.
pub fn optional_bool(value: &JsonValue, key: &str) -> (r: Field<Option<bool>>)
    ensures
        match r {
            Field::Present(x) => flag_fits(value@.get(key@)) && flag_read(x, value@.get(key@)),
            Field::Invalid => !flag_fits(value@.get(key@)),
        },
{
    match value.get(key) {
        None => Field::Present(None),
        Some(JsonValue::Null) => Field::Present(None),
        Some(JsonValue::Bool(b)) => Field::Present(Some(*b)),
        Some(_) => Field::Invalid,
    }
}

/// An optional list of strings: absent or `null` is `None`.
pub fn optional_texts(value: &JsonValue, key: &str) -> (r: Field<Option<Vec<String>>>)
    ensures
        match r {
            Field::Present(x) => texts_fits(value@.get(key@)) && texts_read(x, value@.get(key@)),
            Field::Invalid => !texts_fits(value@.get(key@)),
        },
{
    match value.get(key) {
        None => Field::Present(None),
        Some(JsonValue::Null) => Field::Present(None),
        Some(v) => match texts_from_json(v) {
            Some(items) => Field::Present(Some(items)),
            None => Field::Invalid,
        },
    }
}

/// An optional list of documents: absent or `null` is `None`.
pub fn optional_list<T: Document>(value: &JsonValue, key: &str) -> (r: Field<Option<Vec<T>>>)
    ensures
        match r {
            Field::Present(x) => docs_fit::<T>(value@.get(key@)) && docs_read::<T>(x, value@.get(key@)),
            Field::Invalid => !docs_fit::<T>(value@.get(key@)),
        },
{
    match value.get(key) {
        None => Field::Present(None),
        Some(JsonValue::Null) => Field::Present(None),
        Some(v) => match list_from_json::<T>(v) {
            Some(items) => Field::Present(Some(items)),
            None => Field::Invalid,
        },
    }
}

/// A required list of documents.
pub fn required_list<T: Document>(value: &JsonValue, key: &str) -> (r: Option<Vec<T>>)
    ensures
        match r {
            Some(xs) => required_docs_fit::<T>(value@.get(key@)) && required_docs_read::<T>(xs@, value@.get(key@)),
            None => !required_docs_fit::<T>(value@.get(key@)),
        },
{
    match value.get(key) {
        Some(v) => list_from_json::<T>(v),
        None => None,
    }
}

} // verus!

verus! {

/// One step of a test case: plain text, or an action with what it should
/// produce.
#[derive(Debug)]
pub enum TestCaseStep {
    Simple(String),
    Structured(TestStep),
}

impl Document for TestCaseStep {
    open spec fn model(&self) -> Json {
        match self {
            TestCaseStep::Simple(s) => Json::Str(s@),
            TestCaseStep::Structured(step) => step.model(),
        }
    }

    open spec fn fits(v: Json) -> bool {
        v is Str || TestStep::fits(v)
    }

    open spec fn read_from(&self, v: Json) -> bool {
        match self {
            TestCaseStep::Simple(s) => v == Json::Str(s@),
            TestCaseStep::Structured(step) => !(v is Str) && step.read_from(v),
        }
    }

    fn to_json(&self) -> (r: JsonValue) {
        match self {
            TestCaseStep::Simple(s) => JsonValue::Str(s.clone()),
            TestCaseStep::Structured(step) => step.to_json(),
        }
    }

    fn from_json(value: &JsonValue) -> (r: Option<Self>) {
        match value {
            JsonValue::Str(s) => Some(TestCaseStep::Simple(s.clone())),
            _ => match TestStep::from_json(value) {
                Some(step) => Some(TestCaseStep::Structured(step)),
                None => None,
            },
        }
    }

    fn copy(&self) -> (r: Self) {
        match self {
            TestCaseStep::Simple(s) => TestCaseStep::Simple(s.clone()),
            TestCaseStep::Structured(step) => TestCaseStep::Structured(step.copy()),
        }
    }
}

/// The JSON object the pinned case versions of a run are written as.
pub open spec fn versions_model(v: Seq<(String, u64)>) -> Json {
    Json::Object(Seq::new(v.len(), |i: int| (v[i].0@, Json::Number(NumberModel::Unsigned(v[i].1)))))
}

/// Writes the pinned case versions of a run.
pub fn versions_to_json(v: &Vec<(String, u64)>) -> (r: JsonValue)
    ensures
        r@ == versions_model(v@),
{
    let mut m: Vec<(String, JsonValue)> = Vec::new();
    let mut i: usize = 0;
    while i < v.len()
        invariant
            i <= v.len(),
            m@.len() == i,
            forall|k: int| 0 <= k < i ==> members_of(m@)[k] == (v@[k].0@, Json::Number(NumberModel::Unsigned(v@[k].1))),
        decreases v.len() - i,
    {
        let ghost before = m@;
        m.push((v[i].0.clone(), JsonValue::Number(JsonNumber::Unsigned(v[i].1))));
        proof {
            assert forall|k: int| 0 <= k < i + 1 implies members_of(m@)[k] == (v@[k].0@, Json::Number(NumberModel::Unsigned(v@[k].1))) by {
                if k < i {
                    assert(m@[k] == before[k]);
                    assert(members_of(before)[k] == members_of(m@)[k]);
                }
            }
        }
        i = i + 1;
    }
    assert(members_of(m@) =~= versions_model(v@)->Object_0);
    proof { crate::json::lemma_object_model(m); }
    JsonValue::Object(m)
}

/// Copies the pinned case versions of a run.
pub fn versions_copy(v: &Vec<(String, u64)>) -> (r: Vec<(String, u64)>)
    ensures
        r@ == v@,
{
    let mut out: Vec<(String, u64)> = Vec::new();
    let mut i: usize = 0;
    while i < v.len()
        invariant
            i <= v.len(),
            out@.len() == i,
            forall|k: int| 0 <= k < i ==> out@[k] == v@[k],
        decreases v.len() - i,
    {
        out.push((v[i].0.clone(), v[i].1));
        i = i + 1;
    }
    assert(out@ =~= v@);
    out
}

/// Reads the pinned case versions of a run: absent or `null` is `None`.
pub fn optional_versions(value: &JsonValue, key: &str) -> (r: Field<Option<Vec<(String, u64)>>>)
    ensures
        match r {
            Field::Present(x) => pinned_fits(value@.get(key@)) && pinned_read(x, value@.get(key@)),
            Field::Invalid => !pinned_fits(value@.get(key@)),
        },
{
    match value.get(key) {
        None => Field::Present(None),
        Some(JsonValue::Null) => Field::Present(None),
        Some(JsonValue::Object(m)) => {
            proof { crate::json::lemma_object_model(*m); }
            let ghost ms = members_of(m@);
            let mut out: Vec<(String, u64)> = Vec::new();
            let mut i: usize = 0;
            while i < m.len()
                invariant
                    i <= m.len(),
                    out@.len() == i,
                    ms == members_of(m@),
                    value@.get(key@) == Some(Json::Object(ms)),
                    forall|k: int| 0 <= k < i ==> (#[trigger] ms[k]).1 matches Json::Number(NumberModel::Unsigned(_)),
                    forall|k: int| 0 <= k < i ==> (#[trigger] out@[k]).0@ == ms[k].0
                        && ms[k].1 == Json::Number(NumberModel::Unsigned(out@[k].1)),
                decreases m.len() - i,
            {
                match &m[i].1 {
                    JsonValue::Number(JsonNumber::Unsigned(n)) => {
                        out.push((m[i].0.clone(), *n));
                    },
                    _ => {
                        assert(!(ms[i as int].1 matches Json::Number(NumberModel::Unsigned(_))));
                        return Field::Invalid;
                    },
                }
                i = i + 1;
            }
            assert(versions_model(out@)->Object_0 =~= ms);
            Field::Present(Some(out))
        },
        Some(_) => Field::Invalid,
    }
}

} // verus!

verus! {

/// The JSON an optional list of documents is written as.
pub open spec fn opt_list_json<T: Document>(v: Option<Vec<T>>) -> Option<Json> {
    match v {
        Some(items) => Some(list_model(items@)),
        None => None,
    }
}

/// The JSON an optional list of strings is written as.
pub open spec fn opt_texts_json(v: Option<Vec<String>>) -> Option<Json> {
    match v {
        Some(items) => Some(texts_model(items@)),
        None => None,
    }
}

/// The JSON optional pinned versions are written as.
pub open spec fn opt_versions_json(v: Option<Vec<(String, u64)>>) -> Option<Json> {
    match v {
        Some(items) => Some(versions_model(items@)),
        None => None,
    }
}

/// Copies an optional list of documents.
pub fn opt_list_copy<T: Document>(v: &Option<Vec<T>>) -> (r: Option<Vec<T>>)
    ensures
        opt_list_json(r) == opt_list_json(*v),
{
    match v {
        Some(items) => Some(list_copy(items)),
        None => None,
    }
}

/// Copies an optional list of strings.
pub fn opt_texts_copy(v: &Option<Vec<String>>) -> (r: Option<Vec<String>>)
    ensures
        r == *v || (r is Some && v is Some && r->0@ == v->0@),
        opt_texts_json(r) == opt_texts_json(*v),
{
    match v {
        Some(items) => Some(texts_copy(items)),
        None => None,
    }
}

/// Copies optional pinned versions.
pub fn opt_versions_copy(v: &Option<Vec<(String, u64)>>) -> (r: Option<Vec<(String, u64)>>)
    ensures
        opt_versions_json(r) == opt_versions_json(*v),
        match r { Some(x) => v is Some && x@ == v->0@, None => v is None },
{
    match v {
        Some(items) => Some(versions_copy(items)),
        None => None,
    }
}

/// Writes an optional list of documents.
pub fn opt_list_to_json<T: Document>(v: &Option<Vec<T>>) -> (r: Option<JsonValue>)
    ensures
        (match r { Some(x) => Some(x@), None => None }) == opt_list_json(*v),
{
    match v {
        Some(items) => Some(list_to_json(items)),
        None => None,
    }
}

/// Writes an optional list of strings.
pub fn opt_texts_to_json(v: &Option<Vec<String>>) -> (r: Option<JsonValue>)
    ensures
        (match r { Some(x) => Some(x@), None => None }) == opt_texts_json(*v),
{
    match v {
        Some(items) => Some(texts_to_json(items)),
        None => None,
    }
}

/// Writes optional pinned versions.
pub fn opt_versions_to_json(v: &Option<Vec<(String, u64)>>) -> (r: Option<JsonValue>)
    ensures
        (match r { Some(x) => Some(x@), None => None }) == opt_versions_json(*v),
{
    match v {
        Some(items) => Some(versions_to_json(items)),
        None => None,
    }
}

} // verus!

verus! {

/// A file attached to a case, a step or a result.
#[derive(Debug)]
pub struct Attachment {
    pub filename: String,
    pub original_name: String,
    pub mime_type: String,
    pub size: JsonNumber,
    pub uploaded_at: Option<String>,
}

impl Attachment {
    /// The members a stored `Attachment` document may carry.
    pub const FIELDS: [&'static str; 5] = ["filename", "originalName", "mimeType", "size", "uploadedAt"];
}

impl Attachment {
    /// The members this value is written with.
    pub open spec fn members(&self) -> Seq<(Seq<char>, Json)> {
        text_member("filename"@, self.filename@) + text_member("originalName"@, self.original_name@) + text_member("mimeType"@, self.mime_type@) + seq![("size"@, Json::Number(self.size@))] + opt_text("uploadedAt"@, self.uploaded_at)
    }
}

impl Document for Attachment {
    open spec fn model(&self) -> Json {
        Json::Object(self.members())
    }

    open spec fn fits(v: Json) -> bool {
        &&& keys_among(v, slice_texts(Self::FIELDS@))
        &&& v.str_at("filename"@) is Some
        &&& v.str_at("originalName"@) is Some
        &&& v.str_at("mimeType"@) is Some
        &&& v.get("size"@) matches Some(Json::Number(_))
        &&& text_fits(v.get("uploadedAt"@))
    }

    open spec fn read_from(&self, v: Json) -> bool {
        &&& v.str_at("filename"@) == Some(self.filename@)
        &&& v.str_at("originalName"@) == Some(self.original_name@)
        &&& v.str_at("mimeType"@) == Some(self.mime_type@)
        &&& v.get("size"@) == Some(Json::Number(self.size@))
        &&& text_read(self.uploaded_at, v.get("uploadedAt"@))
    }

    fn to_json(&self) -> (r: JsonValue) {
        let mut m: Vec<(String, JsonValue)> = Vec::new();
        assert(members_of(m@) =~= Seq::<(Seq<char>, Json)>::empty());

        push_text(&mut m, "filename", &self.filename);
        push_text(&mut m, "originalName", &self.original_name);
        push_text(&mut m, "mimeType", &self.mime_type);
        push_member(&mut m, "size", JsonValue::Number(number_clone(&self.size)));
        push_opt_text(&mut m, "uploadedAt", &self.uploaded_at);
        assert(members_of(m@) =~= self.members());
        proof { crate::json::lemma_object_model(m); }
        JsonValue::Object(m)
    }

    fn from_json(value: &JsonValue) -> (r: Option<Self>) {
        if !keys_within(value, &Self::FIELDS) {
            return None;
        }
        let filename = match required_text(value, "filename") { Some(x) => x, None => { return None; } };
        let original_name = match required_text(value, "originalName") { Some(x) => x, None => { return None; } };
        let mime_type = match required_text(value, "mimeType") { Some(x) => x, None => { return None; } };
        let size = match value.get("size") { Some(JsonValue::Number(n)) => number_clone(n), _ => { return None; } };
        let uploaded_at = match optional_text(value, "uploadedAt") { Field::Present(x) => x, _ => { return None; } };
        Some(Attachment { filename, original_name, mime_type, size, uploaded_at })
    }

    fn copy(&self) -> (r: Self) {
        let filename = self.filename.clone();
        let original_name = self.original_name.clone();
        let mime_type = self.mime_type.clone();
        let size = number_clone(&self.size);
        assert(seq![("size"@, Json::Number(size@))] == seq![("size"@, Json::Number(self.size@))]);
        let uploaded_at = self.uploaded_at.clone();
        let r = Attachment { filename, original_name, mime_type, size, uploaded_at };
        assert(r.members() == self.members());
        r
    }
}

/// A structured step: an action and what it should produce.
#[derive(Debug)]
pub struct TestStep {
    pub action: String,
    pub expected_result: Option<String>,
    pub attachments: Option<Vec<Attachment>>,
}

impl TestStep {
    /// The members a stored `TestStep` document may carry.
    pub const FIELDS: [&'static str; 3] = ["action", "expectedResult", "attachments"];
}

impl TestStep {
    /// The members this value is written with.
    pub open spec fn members(&self) -> Seq<(Seq<char>, Json)> {
        text_member("action"@, self.action@) + opt_text("expectedResult"@, self.expected_result) + opt_member("attachments"@, opt_list_json(self.attachments))
    }
}

impl Document for TestStep {
    open spec fn model(&self) -> Json {
        Json::Object(self.members())
    }

    open spec fn fits(v: Json) -> bool {
        &&& keys_among(v, slice_texts(Self::FIELDS@))
        &&& v.str_at("action"@) is Some
        &&& text_fits(v.get("expectedResult"@))
        &&& docs_fit::<Attachment>(v.get("attachments"@))
    }

    open spec fn read_from(&self, v: Json) -> bool {
        &&& v.str_at("action"@) == Some(self.action@)
        &&& text_read(self.expected_result, v.get("expectedResult"@))
        &&& docs_read::<Attachment>(self.attachments, v.get("attachments"@))
    }

    fn to_json(&self) -> (r: JsonValue) {
        let mut m: Vec<(String, JsonValue)> = Vec::new();
        assert(members_of(m@) =~= Seq::<(Seq<char>, Json)>::empty());

        push_text(&mut m, "action", &self.action);
        push_opt_text(&mut m, "expectedResult", &self.expected_result);
        push_opt_member(&mut m, "attachments", opt_list_to_json(&self.attachments));
        assert(members_of(m@) =~= self.members());
        proof { crate::json::lemma_object_model(m); }
        JsonValue::Object(m)
    }

    fn from_json(value: &JsonValue) -> (r: Option<Self>) {
        if !keys_within(value, &Self::FIELDS) {
            return None;
        }
        let action = match required_text(value, "action") { Some(x) => x, None => { return None; } };
        let expected_result = match optional_text(value, "expectedResult") { Field::Present(x) => x, _ => { return None; } };
        let attachments = match optional_list::<Attachment>(value, "attachments") { Field::Present(x) => x, _ => { return None; } };
        Some(TestStep { action, expected_result, attachments })
    }

    fn copy(&self) -> (r: Self) {
        let action = self.action.clone();
        let expected_result = self.expected_result.clone();
        let attachments = opt_list_copy(&self.attachments);
        let r = TestStep { action, expected_result, attachments };
        assert(r.members() == self.members());
        r
    }
}

/// A test case.
#[derive(Debug)]
pub struct TestCase {
    pub test_case_id: String,
    pub title: String,
    pub description: Option<String>,
    pub preconditions: Option<String>,
    pub steps: Option<Vec<TestCaseStep>>,
    pub expected_result: String,
    pub priority: Option<String>,
    pub severity: Option<String>,
    pub test_type: Option<String>,
    pub exploratory: Option<bool>,
    pub attachments: Option<Vec<Attachment>>,
    pub tags: Option<Vec<String>>,
    pub version: Option<u64>,
    pub last_modified: Option<String>,
}

impl TestCase {
    /// The members a stored `TestCase` document may carry.
    pub const FIELDS: [&'static str; 14] = ["testCaseId", "title", "description", "preconditions", "steps", "expectedResult", "priority", "severity", "testType", "exploratory", "attachments", "tags", "version", "lastModified"];
}

impl TestCase {
    /// The members this value is written with.
    pub open spec fn members(&self) -> Seq<(Seq<char>, Json)> {
        text_member("testCaseId"@, self.test_case_id@) + text_member("title"@, self.title@) + opt_text("description"@, self.description) + opt_text("preconditions"@, self.preconditions) + opt_member("steps"@, opt_list_json(self.steps)) + text_member("expectedResult"@, self.expected_result@) + opt_text("priority"@, self.priority) + opt_text("severity"@, self.severity) + opt_text("testType"@, self.test_type) + opt_member("exploratory"@, match self.exploratory { Some(b) => Some(Json::Bool(b)), None => None }) + opt_member("attachments"@, opt_list_json(self.attachments)) + opt_member("tags"@, opt_texts_json(self.tags)) + opt_member("version"@, match self.version { Some(n) => Some(Json::Number(NumberModel::Unsigned(n))), None => None }) + opt_text("lastModified"@, self.last_modified)
    }
}

impl Document for TestCase {
    open spec fn model(&self) -> Json {
        Json::Object(self.members())
    }

    open spec fn fits(v: Json) -> bool {
        &&& keys_among(v, slice_texts(Self::FIELDS@))
        &&& v.str_at("testCaseId"@) is Some
        &&& v.str_at("title"@) is Some
        &&& text_fits(v.get("description"@))
        &&& text_fits(v.get("preconditions"@))
        &&& docs_fit::<TestCaseStep>(v.get("steps"@))
        &&& v.str_at("expectedResult"@) is Some
        &&& text_fits(v.get("priority"@))
        &&& text_fits(v.get("severity"@))
        &&& text_fits(v.get("testType"@))
        &&& flag_fits(v.get("exploratory"@))
        &&& docs_fit::<Attachment>(v.get("attachments"@))
        &&& texts_fits(v.get("tags"@))
        &&& unsigned_fits(v.get("version"@))
        &&& text_fits(v.get("lastModified"@))
    }

    open spec fn read_from(&self, v: Json) -> bool {
        &&& v.str_at("testCaseId"@) == Some(self.test_case_id@)
        &&& v.str_at("title"@) == Some(self.title@)
        &&& text_read(self.description, v.get("description"@))
        &&& text_read(self.preconditions, v.get("preconditions"@))
        &&& docs_read::<TestCaseStep>(self.steps, v.get("steps"@))
        &&& v.str_at("expectedResult"@) == Some(self.expected_result@)
        &&& text_read(self.priority, v.get("priority"@))
        &&& text_read(self.severity, v.get("severity"@))
        &&& text_read(self.test_type, v.get("testType"@))
        &&& flag_read(self.exploratory, v.get("exploratory"@))
        &&& docs_read::<Attachment>(self.attachments, v.get("attachments"@))
        &&& texts_read(self.tags, v.get("tags"@))
        &&& unsigned_read(self.version, v.get("version"@))
        &&& text_read(self.last_modified, v.get("lastModified"@))
    }

    fn to_json(&self) -> (r: JsonValue) {
        let mut m: Vec<(String, JsonValue)> = Vec::new();
        assert(members_of(m@) =~= Seq::<(Seq<char>, Json)>::empty());

        push_text(&mut m, "testCaseId", &self.test_case_id);
        push_text(&mut m, "title", &self.title);
        push_opt_text(&mut m, "description", &self.description);
        push_opt_text(&mut m, "preconditions", &self.preconditions);
        push_opt_member(&mut m, "steps", opt_list_to_json(&self.steps));
        push_text(&mut m, "expectedResult", &self.expected_result);
        push_opt_text(&mut m, "priority", &self.priority);
        push_opt_text(&mut m, "severity", &self.severity);
        push_opt_text(&mut m, "testType", &self.test_type);
        push_opt_member(&mut m, "exploratory", match self.exploratory { Some(b) => Some(JsonValue::Bool(b)), None => None });
        push_opt_member(&mut m, "attachments", opt_list_to_json(&self.attachments));
        push_opt_member(&mut m, "tags", opt_texts_to_json(&self.tags));
        push_opt_member(&mut m, "version", match self.version { Some(n) => Some(JsonValue::Number(JsonNumber::Unsigned(n))), None => None });
        push_opt_text(&mut m, "lastModified", &self.last_modified);
        assert(members_of(m@) =~= self.members());
        proof { crate::json::lemma_object_model(m); }
        JsonValue::Object(m)
    }

    fn from_json(value: &JsonValue) -> (r: Option<Self>) {
        if !keys_within(value, &Self::FIELDS) {
            return None;
        }
        let test_case_id = match required_text(value, "testCaseId") { Some(x) => x, None => { return None; } };
        let title = match required_text(value, "title") { Some(x) => x, None => { return None; } };
        let description = match optional_text(value, "description") { Field::Present(x) => x, _ => { return None; } };
        let preconditions = match optional_text(value, "preconditions") { Field::Present(x) => x, _ => { return None; } };
        let steps = match optional_list::<TestCaseStep>(value, "steps") { Field::Present(x) => x, _ => { return None; } };
        let expected_result = match required_text(value, "expectedResult") { Some(x) => x, None => { return None; } };
        let priority = match optional_text(value, "priority") { Field::Present(x) => x, _ => { return None; } };
        let severity = match optional_text(value, "severity") { Field::Present(x) => x, _ => { return None; } };
        let test_type = match optional_text(value, "testType") { Field::Present(x) => x, _ => { return None; } };
        let exploratory = match optional_bool(value, "exploratory") { Field::Present(x) => x, _ => { return None; } };
        let attachments = match optional_list::<Attachment>(value, "attachments") { Field::Present(x) => x, _ => { return None; } };
        let tags = match optional_texts(value, "tags") { Field::Present(x) => x, _ => { return None; } };
        let version = match optional_u64(value, "version") { Field::Present(x) => x, _ => { return None; } };
        let last_modified = match optional_text(value, "lastModified") { Field::Present(x) => x, _ => { return None; } };
        Some(TestCase { test_case_id, title, description, preconditions, steps, expected_result, priority, severity, test_type, exploratory, attachments, tags, version, last_modified })
    }

    #[verifier::rlimit(40)]
    fn copy(&self) -> (r: Self) {
        let test_case_id = self.test_case_id.clone();
        let title = self.title.clone();
        let description = self.description.clone();
        let preconditions = self.preconditions.clone();
        let steps = opt_list_copy(&self.steps);
        let expected_result = self.expected_result.clone();
        let priority = self.priority.clone();
        let severity = self.severity.clone();
        let test_type = self.test_type.clone();
        let exploratory = self.exploratory;
        let attachments = opt_list_copy(&self.attachments);
        let tags = opt_texts_copy(&self.tags);
        let version = self.version;
        let last_modified = self.last_modified.clone();
        let r = TestCase { test_case_id, title, description, preconditions, steps, expected_result, priority, severity, test_type, exploratory, attachments, tags, version, last_modified };
        assert(r.members() == self.members());
        r
    }
}

/// A test suite and the cases it holds.
#[derive(Debug)]
pub struct TestSuite {
    pub suite_id: String,
    pub name: String,
    pub description: Option<String>,
    pub test_cases: Vec<TestCase>,
    pub tags: Option<Vec<String>>,
}

impl TestSuite {
    /// The members a stored `TestSuite` document may carry.
    pub const FIELDS: [&'static str; 5] = ["suiteId", "name", "description", "testCases", "tags"];
}

impl TestSuite {
    /// The members this value is written with.
    pub open spec fn members(&self) -> Seq<(Seq<char>, Json)> {
        text_member("suiteId"@, self.suite_id@) + text_member("name"@, self.name@) + opt_text("description"@, self.description) + seq![("testCases"@, list_model(self.test_cases@))] + opt_member("tags"@, opt_texts_json(self.tags))
    }
}

impl Document for TestSuite {
    open spec fn model(&self) -> Json {
        Json::Object(self.members())
    }

    open spec fn fits(v: Json) -> bool {
        &&& keys_among(v, slice_texts(Self::FIELDS@))
        &&& v.str_at("suiteId"@) is Some
        &&& v.str_at("name"@) is Some
        &&& text_fits(v.get("description"@))
        &&& required_docs_fit::<TestCase>(v.get("testCases"@))
        &&& texts_fits(v.get("tags"@))
    }

    open spec fn read_from(&self, v: Json) -> bool {
        &&& v.str_at("suiteId"@) == Some(self.suite_id@)
        &&& v.str_at("name"@) == Some(self.name@)
        &&& text_read(self.description, v.get("description"@))
        &&& required_docs_read::<TestCase>(self.test_cases@, v.get("testCases"@))
        &&& texts_read(self.tags, v.get("tags"@))
    }

    fn to_json(&self) -> (r: JsonValue) {
        let mut m: Vec<(String, JsonValue)> = Vec::new();
        assert(members_of(m@) =~= Seq::<(Seq<char>, Json)>::empty());

        push_text(&mut m, "suiteId", &self.suite_id);
        push_text(&mut m, "name", &self.name);
        push_opt_text(&mut m, "description", &self.description);
        push_member(&mut m, "testCases", list_to_json(&self.test_cases));
        push_opt_member(&mut m, "tags", opt_texts_to_json(&self.tags));
        assert(members_of(m@) =~= self.members());
        proof { crate::json::lemma_object_model(m); }
        JsonValue::Object(m)
    }

    fn from_json(value: &JsonValue) -> (r: Option<Self>) {
        if !keys_within(value, &Self::FIELDS) {
            return None;
        }
        let suite_id = match required_text(value, "suiteId") { Some(x) => x, None => { return None; } };
        let name = match required_text(value, "name") { Some(x) => x, None => { return None; } };
        let description = match optional_text(value, "description") { Field::Present(x) => x, _ => { return None; } };
        let test_cases = match required_list::<TestCase>(value, "testCases") { Some(x) => x, None => { return None; } };
        let tags = match optional_texts(value, "tags") { Field::Present(x) => x, _ => { return None; } };
        Some(TestSuite { suite_id, name, description, test_cases, tags })
    }

    fn copy(&self) -> (r: Self) {
        let suite_id = self.suite_id.clone();
        let name = self.name.clone();
        let description = self.description.clone();
        let test_cases = list_copy(&self.test_cases);
        assert(seq![("testCases"@, list_model(test_cases@))] == seq![("testCases"@, list_model(self.test_cases@))]);
        let tags = opt_texts_copy(&self.tags);
        let r = TestSuite { suite_id, name, description, test_cases, tags };
        assert(r.members() == self.members());
        r
    }
}

/// A project and the suites it holds.
#[derive(Debug)]
pub struct Project {
    pub project_id: String,
    pub name: String,
    pub description: Option<String>,
    pub test_suites: Vec<TestSuite>,
    pub tags: Option<Vec<String>>,
}

impl Project {
    /// The members a stored `Project` document may carry.
    pub const FIELDS: [&'static str; 5] = ["projectId", "name", "description", "testSuites", "tags"];
}

impl Project {
    /// The members this value is written with.
    pub open spec fn members(&self) -> Seq<(Seq<char>, Json)> {
        text_member("projectId"@, self.project_id@) + text_member("name"@, self.name@) + opt_text("description"@, self.description) + seq![("testSuites"@, list_model(self.test_suites@))] + opt_member("tags"@, opt_texts_json(self.tags))
    }
}

impl Document for Project {
    open spec fn model(&self) -> Json {
        Json::Object(self.members())
    }

    open spec fn fits(v: Json) -> bool {
        &&& keys_among(v, slice_texts(Self::FIELDS@))
        &&& v.str_at("projectId"@) is Some
        &&& v.str_at("name"@) is Some
        &&& text_fits(v.get("description"@))
        &&& required_docs_fit::<TestSuite>(v.get("testSuites"@))
        &&& texts_fits(v.get("tags"@))
    }

    open spec fn read_from(&self, v: Json) -> bool {
        &&& v.str_at("projectId"@) == Some(self.project_id@)
        &&& v.str_at("name"@) == Some(self.name@)
        &&& text_read(self.description, v.get("description"@))
        &&& required_docs_read::<TestSuite>(self.test_suites@, v.get("testSuites"@))
        &&& texts_read(self.tags, v.get("tags"@))
    }

    fn to_json(&self) -> (r: JsonValue) {
        let mut m: Vec<(String, JsonValue)> = Vec::new();
        assert(members_of(m@) =~= Seq::<(Seq<char>, Json)>::empty());

        push_text(&mut m, "projectId", &self.project_id);
        push_text(&mut m, "name", &self.name);
        push_opt_text(&mut m, "description", &self.description);
        push_member(&mut m, "testSuites", list_to_json(&self.test_suites));
        push_opt_member(&mut m, "tags", opt_texts_to_json(&self.tags));
        assert(members_of(m@) =~= self.members());
        proof { crate::json::lemma_object_model(m); }
        JsonValue::Object(m)
    }

    fn from_json(value: &JsonValue) -> (r: Option<Self>) {
        if !keys_within(value, &Self::FIELDS) {
            return None;
        }
        let project_id = match required_text(value, "projectId") { Some(x) => x, None => { return None; } };
        let name = match required_text(value, "name") { Some(x) => x, None => { return None; } };
        let description = match optional_text(value, "description") { Field::Present(x) => x, _ => { return None; } };
        let test_suites = match required_list::<TestSuite>(value, "testSuites") { Some(x) => x, None => { return None; } };
        let tags = match optional_texts(value, "tags") { Field::Present(x) => x, _ => { return None; } };
        Some(Project { project_id, name, description, test_suites, tags })
    }

    fn copy(&self) -> (r: Self) {
        let project_id = self.project_id.clone();
        let name = self.name.clone();
        let description = self.description.clone();
        let test_suites = list_copy(&self.test_suites);
        assert(seq![("testSuites"@, list_model(test_suites@))] == seq![("testSuites"@, list_model(self.test_suites@))]);
        let tags = opt_texts_copy(&self.tags);
        let r = Project { project_id, name, description, test_suites, tags };
        assert(r.members() == self.members());
        r
    }
}

/// A link from a result to a defect in an external tracker.
#[derive(Debug)]
pub struct DefectLink {
    pub link_id: String,
    pub defect_id: String,
    pub defect_url: String,
    pub tracker_type: String,
    pub title: Option<String>,
    pub status: Option<String>,
    pub linked_at: String,
}

impl DefectLink {
    /// The members a stored `DefectLink` document may carry.
    pub const FIELDS: [&'static str; 7] = ["linkId", "defectId", "defectUrl", "trackerType", "title", "status", "linkedAt"];
}

impl DefectLink {
    /// The members this value is written with.
    pub open spec fn members(&self) -> Seq<(Seq<char>, Json)> {
        text_member("linkId"@, self.link_id@) + text_member("defectId"@, self.defect_id@) + text_member("defectUrl"@, self.defect_url@) + text_member("trackerType"@, self.tracker_type@) + opt_text("title"@, self.title) + opt_text("status"@, self.status) + text_member("linkedAt"@, self.linked_at@)
    }
}

impl Document for DefectLink {
    open spec fn model(&self) -> Json {
        Json::Object(self.members())
    }

    open spec fn fits(v: Json) -> bool {
        &&& keys_among(v, slice_texts(Self::FIELDS@))
        &&& v.str_at("linkId"@) is Some
        &&& v.str_at("defectId"@) is Some
        &&& v.str_at("defectUrl"@) is Some
        &&& v.str_at("trackerType"@) is Some
        &&& text_fits(v.get("title"@))
        &&& text_fits(v.get("status"@))
        &&& v.str_at("linkedAt"@) is Some
    }

    open spec fn read_from(&self, v: Json) -> bool {
        &&& v.str_at("linkId"@) == Some(self.link_id@)
        &&& v.str_at("defectId"@) == Some(self.defect_id@)
        &&& v.str_at("defectUrl"@) == Some(self.defect_url@)
        &&& v.str_at("trackerType"@) == Some(self.tracker_type@)
        &&& text_read(self.title, v.get("title"@))
        &&& text_read(self.status, v.get("status"@))
        &&& v.str_at("linkedAt"@) == Some(self.linked_at@)
    }

    fn to_json(&self) -> (r: JsonValue) {
        let mut m: Vec<(String, JsonValue)> = Vec::new();
        assert(members_of(m@) =~= Seq::<(Seq<char>, Json)>::empty());

        push_text(&mut m, "linkId", &self.link_id);
        push_text(&mut m, "defectId", &self.defect_id);
        push_text(&mut m, "defectUrl", &self.defect_url);
        push_text(&mut m, "trackerType", &self.tracker_type);
        push_opt_text(&mut m, "title", &self.title);
        push_opt_text(&mut m, "status", &self.status);
        push_text(&mut m, "linkedAt", &self.linked_at);
        assert(members_of(m@) =~= self.members());
        proof { crate::json::lemma_object_model(m); }
        JsonValue::Object(m)
    }

    fn from_json(value: &JsonValue) -> (r: Option<Self>) {
        if !keys_within(value, &Self::FIELDS) {
            return None;
        }
        let link_id = match required_text(value, "linkId") { Some(x) => x, None => { return None; } };
        let defect_id = match required_text(value, "defectId") { Some(x) => x, None => { return None; } };
        let defect_url = match required_text(value, "defectUrl") { Some(x) => x, None => { return None; } };
        let tracker_type = match required_text(value, "trackerType") { Some(x) => x, None => { return None; } };
        let title = match optional_text(value, "title") { Field::Present(x) => x, _ => { return None; } };
        let status = match optional_text(value, "status") { Field::Present(x) => x, _ => { return None; } };
        let linked_at = match required_text(value, "linkedAt") { Some(x) => x, None => { return None; } };
        Some(DefectLink { link_id, defect_id, defect_url, tracker_type, title, status, linked_at })
    }

    fn copy(&self) -> (r: Self) {
        let link_id = self.link_id.clone();
        let defect_id = self.defect_id.clone();
        let defect_url = self.defect_url.clone();
        let tracker_type = self.tracker_type.clone();
        let title = self.title.clone();
        let status = self.status.clone();
        let linked_at = self.linked_at.clone();
        let r = DefectLink { link_id, defect_id, defect_url, tracker_type, title, status, linked_at };
        assert(r.members() == self.members());
        r
    }
}

/// What a client supplies to link a defect.
#[derive(Debug)]
pub struct DefectLinkRequest {
    pub defect_id: String,
    pub defect_url: String,
    pub tracker_type: String,
    pub title: Option<String>,
    pub status: Option<String>,
}

impl DefectLinkRequest {
    /// The members a stored `DefectLinkRequest` document may carry.
    pub const FIELDS: [&'static str; 5] = ["defectId", "defectUrl", "trackerType", "title", "status"];
}

impl DefectLinkRequest {
    /// The members this value is written with.
    pub open spec fn members(&self) -> Seq<(Seq<char>, Json)> {
        text_member("defectId"@, self.defect_id@) + text_member("defectUrl"@, self.defect_url@) + text_member("trackerType"@, self.tracker_type@) + opt_text("title"@, self.title) + opt_text("status"@, self.status)
    }
}

impl Document for DefectLinkRequest {
    open spec fn model(&self) -> Json {
        Json::Object(self.members())
    }

    open spec fn fits(v: Json) -> bool {
        &&& keys_among(v, slice_texts(Self::FIELDS@))
        &&& v.str_at("defectId"@) is Some
        &&& v.str_at("defectUrl"@) is Some
        &&& v.str_at("trackerType"@) is Some
        &&& text_fits(v.get("title"@))
        &&& text_fits(v.get("status"@))
    }

    open spec fn read_from(&self, v: Json) -> bool {
        &&& v.str_at("defectId"@) == Some(self.defect_id@)
        &&& v.str_at("defectUrl"@) == Some(self.defect_url@)
        &&& v.str_at("trackerType"@) == Some(self.tracker_type@)
        &&& text_read(self.title, v.get("title"@))
        &&& text_read(self.status, v.get("status"@))
    }

    fn to_json(&self) -> (r: JsonValue) {
        let mut m: Vec<(String, JsonValue)> = Vec::new();
        assert(members_of(m@) =~= Seq::<(Seq<char>, Json)>::empty());

        push_text(&mut m, "defectId", &self.defect_id);
        push_text(&mut m, "defectUrl", &self.defect_url);
        push_text(&mut m, "trackerType", &self.tracker_type);
        push_opt_text(&mut m, "title", &self.title);
        push_opt_text(&mut m, "status", &self.status);
        assert(members_of(m@) =~= self.members());
        proof { crate::json::lemma_object_model(m); }
        JsonValue::Object(m)
    }

    fn from_json(value: &JsonValue) -> (r: Option<Self>) {
        if !keys_within(value, &Self::FIELDS) {
            return None;
        }
        let defect_id = match required_text(value, "defectId") { Some(x) => x, None => { return None; } };
        let defect_url = match required_text(value, "defectUrl") { Some(x) => x, None => { return None; } };
        let tracker_type = match required_text(value, "trackerType") { Some(x) => x, None => { return None; } };
        let title = match optional_text(value, "title") { Field::Present(x) => x, _ => { return None; } };
        let status = match optional_text(value, "status") { Field::Present(x) => x, _ => { return None; } };
        Some(DefectLinkRequest { defect_id, defect_url, tracker_type, title, status })
    }

    fn copy(&self) -> (r: Self) {
        let defect_id = self.defect_id.clone();
        let defect_url = self.defect_url.clone();
        let tracker_type = self.tracker_type.clone();
        let title = self.title.clone();
        let status = self.status.clone();
        let r = DefectLinkRequest { defect_id, defect_url, tracker_type, title, status };
        assert(r.members() == self.members());
        r
    }
}

/// The result a run records for one case.
#[derive(Debug)]
pub struct TestCaseResult {
    pub test_case_id: String,
    pub status: String,
    pub timestamp: String,
    pub notes: Option<String>,
    pub duration_ms: Option<u64>,
    pub attachments: Option<Vec<Attachment>>,
    pub defect_links: Option<Vec<DefectLink>>,
}

impl TestCaseResult {
    /// The members a stored `TestCaseResult` document may carry.
    pub const FIELDS: [&'static str; 7] = ["testCaseId", "status", "timestamp", "notes", "durationMs", "attachments", "defectLinks"];
}

impl TestCaseResult {
    /// The members this value is written with.
    pub open spec fn members(&self) -> Seq<(Seq<char>, Json)> {
        text_member("testCaseId"@, self.test_case_id@) + text_member("status"@, self.status@) + text_member("timestamp"@, self.timestamp@) + opt_text("notes"@, self.notes) + opt_member("durationMs"@, match self.duration_ms { Some(n) => Some(Json::Number(NumberModel::Unsigned(n))), None => None }) + opt_member("attachments"@, opt_list_json(self.attachments)) + opt_member("defectLinks"@, opt_list_json(self.defect_links))
    }
}

impl Document for TestCaseResult {
    open spec fn model(&self) -> Json {
        Json::Object(self.members())
    }

    open spec fn fits(v: Json) -> bool {
        &&& keys_among(v, slice_texts(Self::FIELDS@))
        &&& v.str_at("testCaseId"@) is Some
        &&& v.str_at("status"@) is Some
        &&& v.str_at("timestamp"@) is Some
        &&& text_fits(v.get("notes"@))
        &&& unsigned_fits(v.get("durationMs"@))
        &&& docs_fit::<Attachment>(v.get("attachments"@))
        &&& docs_fit::<DefectLink>(v.get("defectLinks"@))
    }

    open spec fn read_from(&self, v: Json) -> bool {
        &&& v.str_at("testCaseId"@) == Some(self.test_case_id@)
        &&& v.str_at("status"@) == Some(self.status@)
        &&& v.str_at("timestamp"@) == Some(self.timestamp@)
        &&& text_read(self.notes, v.get("notes"@))
        &&& unsigned_read(self.duration_ms, v.get("durationMs"@))
        &&& docs_read::<Attachment>(self.attachments, v.get("attachments"@))
        &&& docs_read::<DefectLink>(self.defect_links, v.get("defectLinks"@))
    }

    fn to_json(&self) -> (r: JsonValue) {
        let mut m: Vec<(String, JsonValue)> = Vec::new();
        assert(members_of(m@) =~= Seq::<(Seq<char>, Json)>::empty());

        push_text(&mut m, "testCaseId", &self.test_case_id);
        push_text(&mut m, "status", &self.status);
        push_text(&mut m, "timestamp", &self.timestamp);
        push_opt_text(&mut m, "notes", &self.notes);
        push_opt_member(&mut m, "durationMs", match self.duration_ms { Some(n) => Some(JsonValue::Number(JsonNumber::Unsigned(n))), None => None });
        push_opt_member(&mut m, "attachments", opt_list_to_json(&self.attachments));
        push_opt_member(&mut m, "defectLinks", opt_list_to_json(&self.defect_links));
        assert(members_of(m@) =~= self.members());
        proof { crate::json::lemma_object_model(m); }
        JsonValue::Object(m)
    }

    fn from_json(value: &JsonValue) -> (r: Option<Self>) {
        if !keys_within(value, &Self::FIELDS) {
            return None;
        }
        let test_case_id = match required_text(value, "testCaseId") { Some(x) => x, None => { return None; } };
        let status = match required_text(value, "status") { Some(x) => x, None => { return None; } };
        let timestamp = match required_text(value, "timestamp") { Some(x) => x, None => { return None; } };
        let notes = match optional_text(value, "notes") { Field::Present(x) => x, _ => { return None; } };
        let duration_ms = match optional_u64(value, "durationMs") { Field::Present(x) => x, _ => { return None; } };
        let attachments = match optional_list::<Attachment>(value, "attachments") { Field::Present(x) => x, _ => { return None; } };
        let defect_links = match optional_list::<DefectLink>(value, "defectLinks") { Field::Present(x) => x, _ => { return None; } };
        Some(TestCaseResult { test_case_id, status, timestamp, notes, duration_ms, attachments, defect_links })
    }

    fn copy(&self) -> (r: Self) {
        let test_case_id = self.test_case_id.clone();
        let status = self.status.clone();
        let timestamp = self.timestamp.clone();
        let notes = self.notes.clone();
        let duration_ms = self.duration_ms;
        let attachments = opt_list_copy(&self.attachments);
        let defect_links = opt_list_copy(&self.defect_links);
        let r = TestCaseResult { test_case_id, status, timestamp, notes, duration_ms, attachments, defect_links };
        assert(r.members() == self.members());
        r
    }
}

/// An environment a run executes against.
#[derive(Debug)]
pub struct TestConfiguration {
    pub config_id: String,
    pub name: String,
    pub browser: Option<String>,
    pub os: Option<String>,
    pub device: Option<String>,
    pub resolution: Option<String>,
}

impl TestConfiguration {
    /// The members a stored `TestConfiguration` document may carry.
    pub const FIELDS: [&'static str; 6] = ["configId", "name", "browser", "os", "device", "resolution"];
}

impl TestConfiguration {
    /// The members this value is written with.
    pub open spec fn members(&self) -> Seq<(Seq<char>, Json)> {
        text_member("configId"@, self.config_id@) + text_member("name"@, self.name@) + opt_text("browser"@, self.browser) + opt_text("os"@, self.os) + opt_text("device"@, self.device) + opt_text("resolution"@, self.resolution)
    }
}

impl Document for TestConfiguration {
    open spec fn model(&self) -> Json {
        Json::Object(self.members())
    }

    open spec fn fits(v: Json) -> bool {
        &&& keys_among(v, slice_texts(Self::FIELDS@))
        &&& v.str_at("configId"@) is Some
        &&& v.str_at("name"@) is Some
        &&& text_fits(v.get("browser"@))
        &&& text_fits(v.get("os"@))
        &&& text_fits(v.get("device"@))
        &&& text_fits(v.get("resolution"@))
    }

    open spec fn read_from(&self, v: Json) -> bool {
        &&& v.str_at("configId"@) == Some(self.config_id@)
        &&& v.str_at("name"@) == Some(self.name@)
        &&& text_read(self.browser, v.get("browser"@))
        &&& text_read(self.os, v.get("os"@))
        &&& text_read(self.device, v.get("device"@))
        &&& text_read(self.resolution, v.get("resolution"@))
    }

    fn to_json(&self) -> (r: JsonValue) {
        let mut m: Vec<(String, JsonValue)> = Vec::new();
        assert(members_of(m@) =~= Seq::<(Seq<char>, Json)>::empty());

        push_text(&mut m, "configId", &self.config_id);
        push_text(&mut m, "name", &self.name);
        push_opt_text(&mut m, "browser", &self.browser);
        push_opt_text(&mut m, "os", &self.os);
        push_opt_text(&mut m, "device", &self.device);
        push_opt_text(&mut m, "resolution", &self.resolution);
        assert(members_of(m@) =~= self.members());
        proof { crate::json::lemma_object_model(m); }
        JsonValue::Object(m)
    }

    fn from_json(value: &JsonValue) -> (r: Option<Self>) {
        if !keys_within(value, &Self::FIELDS) {
            return None;
        }
        let config_id = match required_text(value, "configId") { Some(x) => x, None => { return None; } };
        let name = match required_text(value, "name") { Some(x) => x, None => { return None; } };
        let browser = match optional_text(value, "browser") { Field::Present(x) => x, _ => { return None; } };
        let os = match optional_text(value, "os") { Field::Present(x) => x, _ => { return None; } };
        let device = match optional_text(value, "device") { Field::Present(x) => x, _ => { return None; } };
        let resolution = match optional_text(value, "resolution") { Field::Present(x) => x, _ => { return None; } };
        Some(TestConfiguration { config_id, name, browser, os, device, resolution })
    }

    fn copy(&self) -> (r: Self) {
        let config_id = self.config_id.clone();
        let name = self.name.clone();
        let browser = self.browser.clone();
        let os = self.os.clone();
        let device = self.device.clone();
        let resolution = self.resolution.clone();
        let r = TestConfiguration { config_id, name, browser, os, device, resolution };
        assert(r.members() == self.members());
        r
    }
}

/// A point-in-time run of suites and cases.
#[derive(Debug)]
pub struct TestRun {
    pub test_run_id: String,
    pub timestamp: String,
    pub name: Option<String>,
    pub projects: Option<Vec<Project>>,
    pub test_suites: Option<Vec<TestSuite>>,
    pub test_cases: Option<Vec<TestCase>>,
    pub results: Option<Vec<TestCaseResult>>,
    pub tags: Option<Vec<String>>,
    pub configurations: Option<Vec<TestConfiguration>>,
    pub case_versions: Option<Vec<(String, u64)>>,
}

impl TestRun {
    /// The members a stored `TestRun` document may carry.
    pub const FIELDS: [&'static str; 10] = ["testRunId", "timestamp", "name", "projects", "testSuites", "testCases", "results", "tags", "configurations", "caseVersions"];
}

impl TestRun {
    /// The members this value is written with.
    pub open spec fn members(&self) -> Seq<(Seq<char>, Json)> {
        text_member("testRunId"@, self.test_run_id@) + text_member("timestamp"@, self.timestamp@) + opt_text("name"@, self.name) + opt_member("projects"@, opt_list_json(self.projects)) + opt_member("testSuites"@, opt_list_json(self.test_suites)) + opt_member("testCases"@, opt_list_json(self.test_cases)) + opt_member("results"@, opt_list_json(self.results)) + opt_member("tags"@, opt_texts_json(self.tags)) + opt_member("configurations"@, opt_list_json(self.configurations)) + opt_member("caseVersions"@, opt_versions_json(self.case_versions))
    }
}

impl Document for TestRun {
    open spec fn model(&self) -> Json {
        Json::Object(self.members())
    }

    open spec fn fits(v: Json) -> bool {
        &&& keys_among(v, slice_texts(Self::FIELDS@))
        &&& v.str_at("testRunId"@) is Some
        &&& v.str_at("timestamp"@) is Some
        &&& text_fits(v.get("name"@))
        &&& docs_fit::<Project>(v.get("projects"@))
        &&& docs_fit::<TestSuite>(v.get("testSuites"@))
        &&& docs_fit::<TestCase>(v.get("testCases"@))
        &&& docs_fit::<TestCaseResult>(v.get("results"@))
        &&& texts_fits(v.get("tags"@))
        &&& docs_fit::<TestConfiguration>(v.get("configurations"@))
        &&& pinned_fits(v.get("caseVersions"@))
    }

    open spec fn read_from(&self, v: Json) -> bool {
        &&& v.str_at("testRunId"@) == Some(self.test_run_id@)
        &&& v.str_at("timestamp"@) == Some(self.timestamp@)
        &&& text_read(self.name, v.get("name"@))
        &&& docs_read::<Project>(self.projects, v.get("projects"@))
        &&& docs_read::<TestSuite>(self.test_suites, v.get("testSuites"@))
        &&& docs_read::<TestCase>(self.test_cases, v.get("testCases"@))
        &&& docs_read::<TestCaseResult>(self.results, v.get("results"@))
        &&& texts_read(self.tags, v.get("tags"@))
        &&& docs_read::<TestConfiguration>(self.configurations, v.get("configurations"@))
        &&& pinned_read(self.case_versions, v.get("caseVersions"@))
    }

    fn to_json(&self) -> (r: JsonValue) {
        let mut m: Vec<(String, JsonValue)> = Vec::new();
        assert(members_of(m@) =~= Seq::<(Seq<char>, Json)>::empty());

        push_text(&mut m, "testRunId", &self.test_run_id);
        push_text(&mut m, "timestamp", &self.timestamp);
        push_opt_text(&mut m, "name", &self.name);
        push_opt_member(&mut m, "projects", opt_list_to_json(&self.projects));
        push_opt_member(&mut m, "testSuites", opt_list_to_json(&self.test_suites));
        push_opt_member(&mut m, "testCases", opt_list_to_json(&self.test_cases));
        push_opt_member(&mut m, "results", opt_list_to_json(&self.results));
        push_opt_member(&mut m, "tags", opt_texts_to_json(&self.tags));
        push_opt_member(&mut m, "configurations", opt_list_to_json(&self.configurations));
        push_opt_member(&mut m, "caseVersions", opt_versions_to_json(&self.case_versions));
        assert(members_of(m@) =~= self.members());
        proof { crate::json::lemma_object_model(m); }
        JsonValue::Object(m)
    }

    fn from_json(value: &JsonValue) -> (r: Option<Self>) {
        if !keys_within(value, &Self::FIELDS) {
            return None;
        }
        let test_run_id = match required_text(value, "testRunId") { Some(x) => x, None => { return None; } };
        let timestamp = match required_text(value, "timestamp") { Some(x) => x, None => { return None; } };
        let name = match optional_text(value, "name") { Field::Present(x) => x, _ => { return None; } };
        let projects = match optional_list::<Project>(value, "projects") { Field::Present(x) => x, _ => { return None; } };
        let test_suites = match optional_list::<TestSuite>(value, "testSuites") { Field::Present(x) => x, _ => { return None; } };
        let test_cases = match optional_list::<TestCase>(value, "testCases") { Field::Present(x) => x, _ => { return None; } };
        let results = match optional_list::<TestCaseResult>(value, "results") { Field::Present(x) => x, _ => { return None; } };
        let tags = match optional_texts(value, "tags") { Field::Present(x) => x, _ => { return None; } };
        let configurations = match optional_list::<TestConfiguration>(value, "configurations") { Field::Present(x) => x, _ => { return None; } };
        let case_versions = match optional_versions(value, "caseVersions") { Field::Present(x) => x, _ => { return None; } };
        Some(TestRun { test_run_id, timestamp, name, projects, test_suites, test_cases, results, tags, configurations, case_versions })
    }

    #[verifier::rlimit(40)]
    fn copy(&self) -> (r: Self) {
        let test_run_id = self.test_run_id.clone();
        let timestamp = self.timestamp.clone();
        let name = self.name.clone();
        let projects = opt_list_copy(&self.projects);
        let test_suites = opt_list_copy(&self.test_suites);
        let test_cases = opt_list_copy(&self.test_cases);
        let results = opt_list_copy(&self.results);
        let tags = opt_texts_copy(&self.tags);
        let configurations = opt_list_copy(&self.configurations);
        let case_versions = opt_versions_copy(&self.case_versions);
        let r = TestRun { test_run_id, timestamp, name, projects, test_suites, test_cases, results, tags, configurations, case_versions };
        assert(r.members() == self.members());
        r
    }
}

/// A milestone and the suites and runs it references.
#[derive(Debug)]
pub struct Milestone {
    pub milestone_id: String,
    pub name: String,
    pub description: Option<String>,
    pub start_date: Option<String>,
    pub target_date: Option<String>,
    pub status: Option<String>,
    pub test_suite_ids: Option<Vec<String>>,
    pub test_run_ids: Option<Vec<String>>,
}

impl Milestone {
    /// The members a stored `Milestone` document may carry.
    pub const FIELDS: [&'static str; 8] = ["milestoneId", "name", "description", "startDate", "targetDate", "status", "testSuiteIds", "testRunIds"];
}

impl Milestone {
    /// The members this value is written with.
    pub open spec fn members(&self) -> Seq<(Seq<char>, Json)> {
        text_member("milestoneId"@, self.milestone_id@) + text_member("name"@, self.name@) + opt_text("description"@, self.description) + opt_text("startDate"@, self.start_date) + opt_text("targetDate"@, self.target_date) + opt_text("status"@, self.status) + opt_member("testSuiteIds"@, opt_texts_json(self.test_suite_ids)) + opt_member("testRunIds"@, opt_texts_json(self.test_run_ids))
    }
}

impl Document for Milestone {
    open spec fn model(&self) -> Json {
        Json::Object(self.members())
    }

    open spec fn fits(v: Json) -> bool {
        &&& keys_among(v, slice_texts(Self::FIELDS@))
        &&& v.str_at("milestoneId"@) is Some
        &&& v.str_at("name"@) is Some
        &&& text_fits(v.get("description"@))
        &&& text_fits(v.get("startDate"@))
        &&& text_fits(v.get("targetDate"@))
        &&& text_fits(v.get("status"@))
        &&& texts_fits(v.get("testSuiteIds"@))
        &&& texts_fits(v.get("testRunIds"@))
    }

    open spec fn read_from(&self, v: Json) -> bool {
        &&& v.str_at("milestoneId"@) == Some(self.milestone_id@)
        &&& v.str_at("name"@) == Some(self.name@)
        &&& text_read(self.description, v.get("description"@))
        &&& text_read(self.start_date, v.get("startDate"@))
        &&& text_read(self.target_date, v.get("targetDate"@))
        &&& text_read(self.status, v.get("status"@))
        &&& texts_read(self.test_suite_ids, v.get("testSuiteIds"@))
        &&& texts_read(self.test_run_ids, v.get("testRunIds"@))
    }

    fn to_json(&self) -> (r: JsonValue) {
        let mut m: Vec<(String, JsonValue)> = Vec::new();
        assert(members_of(m@) =~= Seq::<(Seq<char>, Json)>::empty());

        push_text(&mut m, "milestoneId", &self.milestone_id);
        push_text(&mut m, "name", &self.name);
        push_opt_text(&mut m, "description", &self.description);
        push_opt_text(&mut m, "startDate", &self.start_date);
        push_opt_text(&mut m, "targetDate", &self.target_date);
        push_opt_text(&mut m, "status", &self.status);
        push_opt_member(&mut m, "testSuiteIds", opt_texts_to_json(&self.test_suite_ids));
        push_opt_member(&mut m, "testRunIds", opt_texts_to_json(&self.test_run_ids));
        assert(members_of(m@) =~= self.members());
        proof { crate::json::lemma_object_model(m); }
        JsonValue::Object(m)
    }

    fn from_json(value: &JsonValue) -> (r: Option<Self>) {
        if !keys_within(value, &Self::FIELDS) {
            return None;
        }
        let milestone_id = match required_text(value, "milestoneId") { Some(x) => x, None => { return None; } };
        let name = match required_text(value, "name") { Some(x) => x, None => { return None; } };
        let description = match optional_text(value, "description") { Field::Present(x) => x, _ => { return None; } };
        let start_date = match optional_text(value, "startDate") { Field::Present(x) => x, _ => { return None; } };
        let target_date = match optional_text(value, "targetDate") { Field::Present(x) => x, _ => { return None; } };
        let status = match optional_text(value, "status") { Field::Present(x) => x, _ => { return None; } };
        let test_suite_ids = match optional_texts(value, "testSuiteIds") { Field::Present(x) => x, _ => { return None; } };
        let test_run_ids = match optional_texts(value, "testRunIds") { Field::Present(x) => x, _ => { return None; } };
        Some(Milestone { milestone_id, name, description, start_date, target_date, status, test_suite_ids, test_run_ids })
    }

    fn copy(&self) -> (r: Self) {
        let milestone_id = self.milestone_id.clone();
        let name = self.name.clone();
        let description = self.description.clone();
        let start_date = self.start_date.clone();
        let target_date = self.target_date.clone();
        let status = self.status.clone();
        let test_suite_ids = opt_texts_copy(&self.test_suite_ids);
        let test_run_ids = opt_texts_copy(&self.test_run_ids);
        let r = Milestone { milestone_id, name, description, start_date, target_date, status, test_suite_ids, test_run_ids };
        assert(r.members() == self.members());
        r
    }
}

} // verus!

verus! {

/// A lookup in members `a` followed by `b` answers from `a` first.
pub broadcast proof fn lemma_member_concat(a: Seq<(Seq<char>, Json)>, b: Seq<(Seq<char>, Json)>, k: Seq<char>)
    ensures
        #[trigger] member(a + b, k) == (match member(a, k) {
            Some(v) => Some(v),
            None => member(b, k),
        }),
    decreases a.len(),
{
    if a.len() > 0 {
        assert((a + b).drop_first() =~= a.drop_first() + b);
        lemma_member_concat(a.drop_first(), b, k);
    } else {
        assert(a + b =~= b);
    }
}

/// A lookup in a single member.
pub broadcast proof fn lemma_member_single(k1: Seq<char>, v: Json, k: Seq<char>)
    ensures
        #[trigger] member(seq![(k1, v)], k) == (if k1 == k { Some(v) } else { None }),
{
    let e = Seq::<(Seq<char>, Json)>::empty();
    assert(seq![(k1, v)].drop_first() =~= e);
    assert(member(e, k) is None);
}

/// Members named in `names`, followed by more of them, are all named there.
pub broadcast proof fn lemma_named_concat(a: Seq<(Seq<char>, Json)>, b: Seq<(Seq<char>, Json)>, names: Seq<Seq<char>>)
    requires
        keys_named(a, names),
        keys_named(b, names),
    ensures
        #[trigger] keys_named(a + b, names),
{
    assert forall|i: int| 0 <= i < (a + b).len() implies names.contains(#[trigger] (a + b)[i].0) by {
        if i >= a.len() {
            assert((a + b)[i] == b[i - a.len()]);
        } else {
            assert((a + b)[i] == a[i]);
        }
    }
}

/// A single member is named in `names` when its key is.
pub broadcast proof fn lemma_named_single(k: Seq<char>, v: Json, names: Seq<Seq<char>>)
    requires
        names.contains(k),
    ensures
        #[trigger] keys_named(seq![(k, v)], names),
{
}

/// An attachment written as its document reads back as itself.
pub proof fn lemma_attachment_reads_back(x: Attachment)
    ensures
        Attachment::fits(x.model()),
        x.read_from(x.model()),
{
    broadcast use lemma_member_concat, lemma_member_single, lemma_named_concat, lemma_named_single;
    reveal_strlit("filename");
    reveal_strlit("originalName");
    reveal_strlit("mimeType");
    reveal_strlit("size");
    reveal_strlit("uploadedAt");
    let names = slice_texts(Attachment::FIELDS@);
    assert(names[0] == "filename"@ && names[1] == "originalName"@ && names[2] == "mimeType"@);
    assert(names[3] == "size"@ && names[4] == "uploadedAt"@);
    assert("filename"@.len() == 8 && "originalName"@.len() == 12 && "mimeType"@.len() == 8);
    assert("size"@.len() == 4 && "uploadedAt"@.len() == 10);
    assert("filename"@[0] != "mimeType"@[0]);
}

} // verus!

verus! {
/// A list of documents, each reading back as itself, reads back as itself.
pub proof fn lemma_list_reads_back<T: Document>(xs: Seq<T>)
    requires
        forall|k: int| 0 <= k < xs.len() ==> T::fits(#[trigger] xs[k].model()) && xs[k].read_from(xs[k].model()),
    ensures
        list_fits::<T>(list_model(xs)),
        list_read::<T>(xs, list_model(xs)),
{
    let items = list_model(xs)->Array_0;
    assert forall|k: int| 0 <= k < items.len() implies T::fits(#[trigger] items[k]) by {
        assert(items[k] == xs[k].model());
    }
    assert forall|k: int| 0 <= k < items.len() implies #[trigger] xs[k].read_from(items[k]) by {
        assert(items[k] == xs[k].model());
    }
}

/// A defect link written as its document reads back as itself.
pub proof fn lemma_link_reads_back(x: DefectLink)
    ensures
        DefectLink::fits(x.model()),
        x.read_from(x.model()),
{
    broadcast use lemma_member_concat, lemma_member_single, lemma_named_concat, lemma_named_single;
    reveal_strlit("linkId");
    reveal_strlit("defectId");
    reveal_strlit("defectUrl");
    reveal_strlit("trackerType");
    reveal_strlit("title");
    reveal_strlit("status");
    reveal_strlit("linkedAt");
    assert("linkId"@.len() == 6 && "defectId"@.len() == 8 && "defectUrl"@.len() == 9 && "trackerType"@.len() == 11 && "title"@.len() == 5 && "status"@.len() == 6 && "linkedAt"@.len() == 8);
    assert("linkId"@[0] != "status"@[0]);
    assert("defectId"@[0] != "linkedAt"@[0]);
    let names = slice_texts(DefectLink::FIELDS@);
    assert(names[0] == "linkId"@ && names[1] == "defectId"@ && names[2] == "defectUrl"@ && names[3] == "trackerType"@ && names[4] == "title"@ && names[5] == "status"@ && names[6] == "linkedAt"@);
}

/// A link request written as its document reads back as itself.
pub proof fn lemma_link_request_reads_back(x: DefectLinkRequest)
    ensures
        DefectLinkRequest::fits(x.model()),
        x.read_from(x.model()),
{
    broadcast use lemma_member_concat, lemma_member_single, lemma_named_concat, lemma_named_single;
    reveal_strlit("defectId");
    reveal_strlit("defectUrl");
    reveal_strlit("trackerType");
    reveal_strlit("title");
    reveal_strlit("status");
    assert("defectId"@.len() == 8 && "defectUrl"@.len() == 9 && "trackerType"@.len() == 11 && "title"@.len() == 5 && "status"@.len() == 6);
    let names = slice_texts(DefectLinkRequest::FIELDS@);
    assert(names[0] == "defectId"@ && names[1] == "defectUrl"@ && names[2] == "trackerType"@ && names[3] == "title"@ && names[4] == "status"@);
}

/// A configuration written as its document reads back as itself.
pub proof fn lemma_configuration_reads_back(x: TestConfiguration)
    ensures
        TestConfiguration::fits(x.model()),
        x.read_from(x.model()),
{
    broadcast use lemma_member_concat, lemma_member_single, lemma_named_concat, lemma_named_single;
    reveal_strlit("configId");
    reveal_strlit("name");
    reveal_strlit("browser");
    reveal_strlit("os");
    reveal_strlit("device");
    reveal_strlit("resolution");
    assert("configId"@.len() == 8 && "name"@.len() == 4 && "browser"@.len() == 7 && "os"@.len() == 2 && "device"@.len() == 6 && "resolution"@.len() == 10);
    let names = slice_texts(TestConfiguration::FIELDS@);
    assert(names[0] == "configId"@ && names[1] == "name"@ && names[2] == "browser"@ && names[3] == "os"@ && names[4] == "device"@ && names[5] == "resolution"@);
}

/// A structured step written as its document reads back as itself.
pub proof fn lemma_step_reads_back(x: TestStep)
    ensures
        TestStep::fits(x.model()),
        x.read_from(x.model()),
{
    broadcast use lemma_member_concat, lemma_member_single, lemma_named_concat, lemma_named_single;
    reveal_strlit("action");
    reveal_strlit("expectedResult");
    reveal_strlit("attachments");
    assert("action"@.len() == 6 && "expectedResult"@.len() == 14 && "attachments"@.len() == 11);
    let names = slice_texts(TestStep::FIELDS@);
    assert(names[0] == "action"@ && names[1] == "expectedResult"@ && names[2] == "attachments"@);
    match x.attachments {
        Some(v) => {
            assert forall|k: int| 0 <= k < v@.len() implies Attachment::fits(#[trigger] v@[k].model()) && v@[k].read_from(v@[k].model()) by {
                lemma_attachment_reads_back(v@[k]);
            }
            lemma_list_reads_back::<Attachment>(v@);
        },
        None => {},
    }
}

/// A step written as its document reads back as itself.
pub proof fn lemma_case_step_reads_back(x: TestCaseStep)
    ensures
        TestCaseStep::fits(x.model()),
        x.read_from(x.model()),
{
    match x {
        TestCaseStep::Simple(_) => {},
        TestCaseStep::Structured(step) => {
            lemma_step_reads_back(step);
        },
    }
}

/// The members of a test case written as its document are all ones a test
/// case defines.
#[verifier::rlimit(100)]
#[verifier::spinoff_prover]
proof fn lemma_case_keys_back(x: TestCase)
    ensures
        keys_among(x.model(), slice_texts(TestCase::FIELDS@)),
{
    broadcast use lemma_member_concat, lemma_member_single, lemma_named_concat, lemma_named_single;
    reveal_strlit("testCaseId");
    reveal_strlit("title");
    reveal_strlit("description");
    reveal_strlit("preconditions");
    reveal_strlit("steps");
    reveal_strlit("expectedResult");
    reveal_strlit("priority");
    reveal_strlit("severity");
    reveal_strlit("testType");
    reveal_strlit("exploratory");
    reveal_strlit("attachments");
    reveal_strlit("tags");
    reveal_strlit("version");
    reveal_strlit("lastModified");
    assert("testCaseId"@.len() == 10 && "title"@.len() == 5 && "description"@.len() == 11 && "preconditions"@.len() == 13 && "steps"@.len() == 5 && "expectedResult"@.len() == 14 && "priority"@.len() == 8 && "severity"@.len() == 8 && "testType"@.len() == 8 && "exploratory"@.len() == 11 && "attachments"@.len() == 11 && "tags"@.len() == 4 && "version"@.len() == 7 && "lastModified"@.len() == 12);
    assert("title"@[0] != "steps"@[0]);
    assert("description"@[0] != "exploratory"@[0]);
    assert("description"@[0] != "attachments"@[0]);
    assert("priority"@[0] != "severity"@[0]);
    assert("priority"@[0] != "testType"@[0]);
    assert("severity"@[0] != "testType"@[0]);
    assert("exploratory"@[0] != "attachments"@[0]);
    let names = slice_texts(TestCase::FIELDS@);
    assert(names[0] == "testCaseId"@ && names[1] == "title"@ && names[2] == "description"@ && names[3] == "preconditions"@ && names[4] == "steps"@ && names[5] == "expectedResult"@ && names[6] == "priority"@ && names[7] == "severity"@ && names[8] == "testType"@ && names[9] == "exploratory"@ && names[10] == "attachments"@ && names[11] == "tags"@ && names[12] == "version"@ && names[13] == "lastModified"@);
}

/// A test case written as its document has the shape of a test case.
#[verifier::rlimit(100)]
#[verifier::spinoff_prover]
proof fn lemma_case_fits_back(x: TestCase)
    ensures
        TestCase::fits(x.model()),
{
    lemma_case_keys_back(x);
    broadcast use lemma_member_concat, lemma_member_single;
    reveal_strlit("testCaseId");
    reveal_strlit("title");
    reveal_strlit("description");
    reveal_strlit("preconditions");
    reveal_strlit("steps");
    reveal_strlit("expectedResult");
    reveal_strlit("priority");
    reveal_strlit("severity");
    reveal_strlit("testType");
    reveal_strlit("exploratory");
    reveal_strlit("attachments");
    reveal_strlit("tags");
    reveal_strlit("version");
    reveal_strlit("lastModified");
    assert("testCaseId"@.len() == 10 && "title"@.len() == 5 && "description"@.len() == 11 && "preconditions"@.len() == 13 && "steps"@.len() == 5 && "expectedResult"@.len() == 14 && "priority"@.len() == 8 && "severity"@.len() == 8 && "testType"@.len() == 8 && "exploratory"@.len() == 11 && "attachments"@.len() == 11 && "tags"@.len() == 4 && "version"@.len() == 7 && "lastModified"@.len() == 12);
    assert("title"@[0] != "steps"@[0]);
    assert("description"@[0] != "exploratory"@[0]);
    assert("description"@[0] != "attachments"@[0]);
    assert("priority"@[0] != "severity"@[0]);
    assert("priority"@[0] != "testType"@[0]);
    assert("severity"@[0] != "testType"@[0]);
    assert("exploratory"@[0] != "attachments"@[0]);
    let names = slice_texts(TestCase::FIELDS@);
    assert(names[0] == "testCaseId"@ && names[1] == "title"@ && names[2] == "description"@ && names[3] == "preconditions"@ && names[4] == "steps"@ && names[5] == "expectedResult"@ && names[6] == "priority"@ && names[7] == "severity"@ && names[8] == "testType"@ && names[9] == "exploratory"@ && names[10] == "attachments"@ && names[11] == "tags"@ && names[12] == "version"@ && names[13] == "lastModified"@);
    match x.steps {
        Some(v) => {
            assert forall|k: int| 0 <= k < v@.len() implies TestCaseStep::fits(#[trigger] v@[k].model()) && v@[k].read_from(v@[k].model()) by {
                lemma_case_step_reads_back(v@[k]);
            }
            lemma_list_reads_back::<TestCaseStep>(v@);
        },
        None => {},
    }
    match x.attachments {
        Some(v) => {
            assert forall|k: int| 0 <= k < v@.len() implies Attachment::fits(#[trigger] v@[k].model()) && v@[k].read_from(v@[k].model()) by {
                lemma_attachment_reads_back(v@[k]);
            }
            lemma_list_reads_back::<Attachment>(v@);
        },
        None => {},
    }
}

/// Each member of a test case written as its document reads as its field.
#[verifier::rlimit(100)]
#[verifier::spinoff_prover]
proof fn lemma_case_fields_back(x: TestCase)
    ensures
        x.read_from(x.model()),
{
    broadcast use lemma_member_concat, lemma_member_single;
    reveal_strlit("testCaseId");
    reveal_strlit("title");
    reveal_strlit("description");
    reveal_strlit("preconditions");
    reveal_strlit("steps");
    reveal_strlit("expectedResult");
    reveal_strlit("priority");
    reveal_strlit("severity");
    reveal_strlit("testType");
    reveal_strlit("exploratory");
    reveal_strlit("attachments");
    reveal_strlit("tags");
    reveal_strlit("version");
    reveal_strlit("lastModified");
    assert("testCaseId"@.len() == 10 && "title"@.len() == 5 && "description"@.len() == 11 && "preconditions"@.len() == 13 && "steps"@.len() == 5 && "expectedResult"@.len() == 14 && "priority"@.len() == 8 && "severity"@.len() == 8 && "testType"@.len() == 8 && "exploratory"@.len() == 11 && "attachments"@.len() == 11 && "tags"@.len() == 4 && "version"@.len() == 7 && "lastModified"@.len() == 12);
    assert("title"@[0] != "steps"@[0]);
    assert("description"@[0] != "exploratory"@[0]);
    assert("description"@[0] != "attachments"@[0]);
    assert("priority"@[0] != "severity"@[0]);
    assert("priority"@[0] != "testType"@[0]);
    assert("severity"@[0] != "testType"@[0]);
    assert("exploratory"@[0] != "attachments"@[0]);
    let names = slice_texts(TestCase::FIELDS@);
    assert(names[0] == "testCaseId"@ && names[1] == "title"@ && names[2] == "description"@ && names[3] == "preconditions"@ && names[4] == "steps"@ && names[5] == "expectedResult"@ && names[6] == "priority"@ && names[7] == "severity"@ && names[8] == "testType"@ && names[9] == "exploratory"@ && names[10] == "attachments"@ && names[11] == "tags"@ && names[12] == "version"@ && names[13] == "lastModified"@);
    match x.steps {
        Some(v) => {
            assert forall|k: int| 0 <= k < v@.len() implies TestCaseStep::fits(#[trigger] v@[k].model()) && v@[k].read_from(v@[k].model()) by {
                lemma_case_step_reads_back(v@[k]);
            }
            lemma_list_reads_back::<TestCaseStep>(v@);
        },
        None => {},
    }
    match x.attachments {
        Some(v) => {
            assert forall|k: int| 0 <= k < v@.len() implies Attachment::fits(#[trigger] v@[k].model()) && v@[k].read_from(v@[k].model()) by {
                lemma_attachment_reads_back(v@[k]);
            }
            lemma_list_reads_back::<Attachment>(v@);
        },
        None => {},
    }
}

/// A test case written as its document reads back as itself.
pub proof fn lemma_case_reads_back(x: TestCase)
    ensures
        TestCase::fits(x.model()),
        x.read_from(x.model()),
{
    lemma_case_fits_back(x);
    lemma_case_fields_back(x);
}

/// A test suite written as its document reads back as itself.
pub proof fn lemma_suite_reads_back(x: TestSuite)
    ensures
        TestSuite::fits(x.model()),
        x.read_from(x.model()),
{
    broadcast use lemma_member_concat, lemma_member_single, lemma_named_concat, lemma_named_single;
    reveal_strlit("suiteId");
    reveal_strlit("name");
    reveal_strlit("description");
    reveal_strlit("testCases");
    reveal_strlit("tags");
    assert("suiteId"@.len() == 7 && "name"@.len() == 4 && "description"@.len() == 11 && "testCases"@.len() == 9 && "tags"@.len() == 4);
    assert("name"@[0] != "tags"@[0]);
    let names = slice_texts(TestSuite::FIELDS@);
    assert(names[0] == "suiteId"@ && names[1] == "name"@ && names[2] == "description"@ && names[3] == "testCases"@ && names[4] == "tags"@);
    assert forall|k: int| 0 <= k < x.test_cases@.len() implies TestCase::fits(#[trigger] x.test_cases@[k].model()) && x.test_cases@[k].read_from(x.test_cases@[k].model()) by {
        lemma_case_reads_back(x.test_cases@[k]);
    }
    lemma_list_reads_back::<TestCase>(x.test_cases@);
}

/// A project written as its document reads back as itself.
pub proof fn lemma_project_reads_back(x: Project)
    ensures
        Project::fits(x.model()),
        x.read_from(x.model()),
{
    broadcast use lemma_member_concat, lemma_member_single, lemma_named_concat, lemma_named_single;
    reveal_strlit("projectId");
    reveal_strlit("name");
    reveal_strlit("description");
    reveal_strlit("testSuites");
    reveal_strlit("tags");
    assert("projectId"@.len() == 9 && "name"@.len() == 4 && "description"@.len() == 11 && "testSuites"@.len() == 10 && "tags"@.len() == 4);
    assert("name"@[0] != "tags"@[0]);
    let names = slice_texts(Project::FIELDS@);
    assert(names[0] == "projectId"@ && names[1] == "name"@ && names[2] == "description"@ && names[3] == "testSuites"@ && names[4] == "tags"@);
    assert forall|k: int| 0 <= k < x.test_suites@.len() implies TestSuite::fits(#[trigger] x.test_suites@[k].model()) && x.test_suites@[k].read_from(x.test_suites@[k].model()) by {
        lemma_suite_reads_back(x.test_suites@[k]);
    }
    lemma_list_reads_back::<TestSuite>(x.test_suites@);
}

/// A result written as its document reads back as itself.
pub proof fn lemma_result_reads_back(x: TestCaseResult)
    ensures
        TestCaseResult::fits(x.model()),
        x.read_from(x.model()),
{
    broadcast use lemma_member_concat, lemma_member_single, lemma_named_concat, lemma_named_single;
    reveal_strlit("testCaseId");
    reveal_strlit("status");
    reveal_strlit("timestamp");
    reveal_strlit("notes");
    reveal_strlit("durationMs");
    reveal_strlit("attachments");
    reveal_strlit("defectLinks");
    assert("testCaseId"@.len() == 10 && "status"@.len() == 6 && "timestamp"@.len() == 9 && "notes"@.len() == 5 && "durationMs"@.len() == 10 && "attachments"@.len() == 11 && "defectLinks"@.len() == 11);
    assert("testCaseId"@[0] != "durationMs"@[0]);
    assert("attachments"@[0] != "defectLinks"@[0]);
    let names = slice_texts(TestCaseResult::FIELDS@);
    assert(names[0] == "testCaseId"@ && names[1] == "status"@ && names[2] == "timestamp"@ && names[3] == "notes"@ && names[4] == "durationMs"@ && names[5] == "attachments"@ && names[6] == "defectLinks"@);
    match x.attachments {
        Some(v) => {
            assert forall|k: int| 0 <= k < v@.len() implies Attachment::fits(#[trigger] v@[k].model()) && v@[k].read_from(v@[k].model()) by {
                lemma_attachment_reads_back(v@[k]);
            }
            lemma_list_reads_back::<Attachment>(v@);
        },
        None => {},
    }
    match x.defect_links {
        Some(v) => {
            assert forall|k: int| 0 <= k < v@.len() implies DefectLink::fits(#[trigger] v@[k].model()) && v@[k].read_from(v@[k].model()) by {
                lemma_link_reads_back(v@[k]);
            }
            lemma_list_reads_back::<DefectLink>(v@);
        },
        None => {},
    }
}

/// The members of a run written as its document are all ones a run defines.
#[verifier::rlimit(100)]
#[verifier::spinoff_prover]
proof fn lemma_run_keys_back(x: TestRun)
    ensures
        keys_among(x.model(), slice_texts(TestRun::FIELDS@)),
{
    broadcast use lemma_member_concat, lemma_member_single, lemma_named_concat, lemma_named_single;
    reveal_strlit("testRunId");
    reveal_strlit("timestamp");
    reveal_strlit("name");
    reveal_strlit("projects");
    reveal_strlit("testSuites");
    reveal_strlit("testCases");
    reveal_strlit("results");
    reveal_strlit("tags");
    reveal_strlit("configurations");
    reveal_strlit("caseVersions");
    assert("testRunId"@.len() == 9 && "timestamp"@.len() == 9 && "name"@.len() == 4 && "projects"@.len() == 8 && "testSuites"@.len() == 10 && "testCases"@.len() == 9 && "results"@.len() == 7 && "tags"@.len() == 4 && "configurations"@.len() == 14 && "caseVersions"@.len() == 12);
    assert("testRunId"@[1] != "timestamp"@[1]);
    assert("testRunId"@[4] != "testCases"@[4]);
    assert("timestamp"@[1] != "testCases"@[1]);
    assert("name"@[0] != "tags"@[0]);
    let names = slice_texts(TestRun::FIELDS@);
    assert(names[0] == "testRunId"@ && names[1] == "timestamp"@ && names[2] == "name"@ && names[3] == "projects"@ && names[4] == "testSuites"@ && names[5] == "testCases"@ && names[6] == "results"@ && names[7] == "tags"@ && names[8] == "configurations"@ && names[9] == "caseVersions"@);
}

/// A run written as its document has the shape of a run, and each member
/// reads as its field.
#[verifier::rlimit(100)]
#[verifier::spinoff_prover]
proof fn lemma_run_fields_back(x: TestRun)
    ensures
        TestRun::fits(x.model()),
        x.read_from(x.model()),
{
    lemma_run_keys_back(x);
    broadcast use lemma_member_concat, lemma_member_single;
    reveal_strlit("testRunId");
    reveal_strlit("timestamp");
    reveal_strlit("name");
    reveal_strlit("projects");
    reveal_strlit("testSuites");
    reveal_strlit("testCases");
    reveal_strlit("results");
    reveal_strlit("tags");
    reveal_strlit("configurations");
    reveal_strlit("caseVersions");
    assert("testRunId"@.len() == 9 && "timestamp"@.len() == 9 && "name"@.len() == 4 && "projects"@.len() == 8 && "testSuites"@.len() == 10 && "testCases"@.len() == 9 && "results"@.len() == 7 && "tags"@.len() == 4 && "configurations"@.len() == 14 && "caseVersions"@.len() == 12);
    assert("testRunId"@[1] != "timestamp"@[1]);
    assert("testRunId"@[4] != "testCases"@[4]);
    assert("timestamp"@[1] != "testCases"@[1]);
    assert("name"@[0] != "tags"@[0]);
    let names = slice_texts(TestRun::FIELDS@);
    assert(names[0] == "testRunId"@ && names[1] == "timestamp"@ && names[2] == "name"@ && names[3] == "projects"@ && names[4] == "testSuites"@ && names[5] == "testCases"@ && names[6] == "results"@ && names[7] == "tags"@ && names[8] == "configurations"@ && names[9] == "caseVersions"@);
    match x.projects {
        Some(v) => {
            assert forall|k: int| 0 <= k < v@.len() implies Project::fits(#[trigger] v@[k].model()) && v@[k].read_from(v@[k].model()) by {
                lemma_project_reads_back(v@[k]);
            }
            lemma_list_reads_back::<Project>(v@);
        },
        None => {},
    }
    match x.test_suites {
        Some(v) => {
            assert forall|k: int| 0 <= k < v@.len() implies TestSuite::fits(#[trigger] v@[k].model()) && v@[k].read_from(v@[k].model()) by {
                lemma_suite_reads_back(v@[k]);
            }
            lemma_list_reads_back::<TestSuite>(v@);
        },
        None => {},
    }
    match x.test_cases {
        Some(v) => {
            assert forall|k: int| 0 <= k < v@.len() implies TestCase::fits(#[trigger] v@[k].model()) && v@[k].read_from(v@[k].model()) by {
                lemma_case_reads_back(v@[k]);
            }
            lemma_list_reads_back::<TestCase>(v@);
        },
        None => {},
    }
    match x.results {
        Some(v) => {
            assert forall|k: int| 0 <= k < v@.len() implies TestCaseResult::fits(#[trigger] v@[k].model()) && v@[k].read_from(v@[k].model()) by {
                lemma_result_reads_back(v@[k]);
            }
            lemma_list_reads_back::<TestCaseResult>(v@);
        },
        None => {},
    }
    match x.configurations {
        Some(v) => {
            assert forall|k: int| 0 <= k < v@.len() implies TestConfiguration::fits(#[trigger] v@[k].model()) && v@[k].read_from(v@[k].model()) by {
                lemma_configuration_reads_back(v@[k]);
            }
            lemma_list_reads_back::<TestConfiguration>(v@);
        },
        None => {},
    }
}

/// A run written as its document reads back as itself.
pub proof fn lemma_run_reads_back(x: TestRun)
    ensures
        TestRun::fits(x.model()),
        x.read_from(x.model()),
{
    lemma_run_fields_back(x);
}

/// A milestone written as its document reads back as itself.
pub proof fn lemma_milestone_reads_back(x: Milestone)
    ensures
        Milestone::fits(x.model()),
        x.read_from(x.model()),
{
    broadcast use lemma_member_concat, lemma_member_single, lemma_named_concat, lemma_named_single;
    reveal_strlit("milestoneId");
    reveal_strlit("name");
    reveal_strlit("description");
    reveal_strlit("startDate");
    reveal_strlit("targetDate");
    reveal_strlit("status");
    reveal_strlit("testSuiteIds");
    reveal_strlit("testRunIds");
    assert("milestoneId"@.len() == 11 && "name"@.len() == 4 && "description"@.len() == 11 && "startDate"@.len() == 9 && "targetDate"@.len() == 10 && "status"@.len() == 6 && "testSuiteIds"@.len() == 12 && "testRunIds"@.len() == 10);
    assert("milestoneId"@[0] != "description"@[0]);
    assert("targetDate"@[1] != "testRunIds"@[1]);
    let names = slice_texts(Milestone::FIELDS@);
    assert(names[0] == "milestoneId"@ && names[1] == "name"@ && names[2] == "description"@ && names[3] == "startDate"@ && names[4] == "targetDate"@ && names[5] == "status"@ && names[6] == "testSuiteIds"@ && names[7] == "testRunIds"@);
}

} // verus!

verus! {

/// Member `j` of a stored document as a value read from it writes it back: a
/// `null` member is left out, any other kept.
pub open spec fn kept_member(j: Option<Json>) -> Option<Json> {
    match j {
        Some(Json::Null) => None,
        _ => j,
    }
}

/// A key that `names` does not hold names no member of `ms` when every member
/// is named there.
proof fn lemma_member_unnamed(ms: Seq<(Seq<char>, Json)>, names: Seq<Seq<char>>, k: Seq<char>)
    requires
        keys_named(ms, names),
        !names.contains(k),
    ensures
        member(ms, k) is None,
    decreases ms.len(),
{
    if ms.len() > 0 {
        assert(names.contains(ms[0].0));
        assert forall|i: int| 0 <= i < ms.drop_first().len() implies names.contains(#[trigger] ms.drop_first()[i].0) by {
            assert(ms.drop_first()[i] == ms[i + 1]);
        }
        lemma_member_unnamed(ms.drop_first(), names, k);
    }
}

/// An attachment read from a stored document writes back every member that
/// document carries, `null` members left out.
pub proof fn lemma_attachment_writes_what_it_read(x: Attachment, v: Json)
    requires
        Attachment::fits(v),
        x.read_from(v),
    ensures
        forall|k: Seq<char>| #[trigger] x.model().get(k) == kept_member(v.get(k)),
{
    let names = slice_texts(Attachment::FIELDS@);
    lemma_attachment_reads_back(x);
    assert forall|k: Seq<char>| #[trigger] x.model().get(k) == kept_member(v.get(k)) by {
        broadcast use lemma_member_concat, lemma_member_single;
        if names.contains(k) {
            reveal_strlit("filename");
            reveal_strlit("originalName");
            reveal_strlit("mimeType");
            reveal_strlit("size");
            reveal_strlit("uploadedAt");
            assert("filename"@.len() == 8 && "originalName"@.len() == 12 && "mimeType"@.len() == 8);
            assert("size"@.len() == 4 && "uploadedAt"@.len() == 10);
            assert("filename"@[0] != "mimeType"@[0]);
            assert(names[0] == "filename"@ && names[1] == "originalName"@ && names[2] == "mimeType"@);
            assert(names[3] == "size"@ && names[4] == "uploadedAt"@);
        } else {
            lemma_member_unnamed(x.model()->Object_0, names, k);
            lemma_member_unnamed(v->Object_0, names, k);
        }
    }
}

} // verus!

verus! {

/// A defect link read from a stored document writes back every member that
/// document carries, `null` members left out.
pub proof fn lemma_link_writes_what_it_read(x: DefectLink, v: Json)
    requires
        DefectLink::fits(v),
        x.read_from(v),
    ensures
        forall|k: Seq<char>| #[trigger] x.model().get(k) == kept_member(v.get(k)),
{
    let names = slice_texts(DefectLink::FIELDS@);
    lemma_link_reads_back(x);
    assert forall|k: Seq<char>| #[trigger] x.model().get(k) == kept_member(v.get(k)) by {
        broadcast use lemma_member_concat, lemma_member_single;
        if names.contains(k) {
            reveal_strlit("linkId");
            reveal_strlit("defectId");
            reveal_strlit("defectUrl");
            reveal_strlit("trackerType");
            reveal_strlit("title");
            reveal_strlit("status");
            reveal_strlit("linkedAt");
            assert("linkId"@.len() == 6 && "defectId"@.len() == 8 && "defectUrl"@.len() == 9 && "trackerType"@.len() == 11 && "title"@.len() == 5 && "status"@.len() == 6 && "linkedAt"@.len() == 8);
            assert("linkId"@[0] != "status"@[0]);
            assert("defectId"@[0] != "linkedAt"@[0]);
            assert(names[0] == "linkId"@ && names[1] == "defectId"@ && names[2] == "defectUrl"@ && names[3] == "trackerType"@ && names[4] == "title"@ && names[5] == "status"@ && names[6] == "linkedAt"@);
        } else {
            lemma_member_unnamed(x.model()->Object_0, names, k);
            lemma_member_unnamed(v->Object_0, names, k);
        }
    }
}

/// A link request read from a stored document writes back every member that
/// document carries, `null` members left out.
pub proof fn lemma_link_request_writes_what_it_read(x: DefectLinkRequest, v: Json)
    requires
        DefectLinkRequest::fits(v),
        x.read_from(v),
    ensures
        forall|k: Seq<char>| #[trigger] x.model().get(k) == kept_member(v.get(k)),
{
    let names = slice_texts(DefectLinkRequest::FIELDS@);
    lemma_link_request_reads_back(x);
    assert forall|k: Seq<char>| #[trigger] x.model().get(k) == kept_member(v.get(k)) by {
        broadcast use lemma_member_concat, lemma_member_single;
        if names.contains(k) {
            reveal_strlit("defectId");
            reveal_strlit("defectUrl");
            reveal_strlit("trackerType");
            reveal_strlit("title");
            reveal_strlit("status");
            assert("defectId"@.len() == 8 && "defectUrl"@.len() == 9 && "trackerType"@.len() == 11 && "title"@.len() == 5 && "status"@.len() == 6);
            assert(names[0] == "defectId"@ && names[1] == "defectUrl"@ && names[2] == "trackerType"@ && names[3] == "title"@ && names[4] == "status"@);
        } else {
            lemma_member_unnamed(x.model()->Object_0, names, k);
            lemma_member_unnamed(v->Object_0, names, k);
        }
    }
}

/// A configuration read from a stored document writes back every member that
/// document carries, `null` members left out.
pub proof fn lemma_configuration_writes_what_it_read(x: TestConfiguration, v: Json)
    requires
        TestConfiguration::fits(v),
        x.read_from(v),
    ensures
        forall|k: Seq<char>| #[trigger] x.model().get(k) == kept_member(v.get(k)),
{
    let names = slice_texts(TestConfiguration::FIELDS@);
    lemma_configuration_reads_back(x);
    assert forall|k: Seq<char>| #[trigger] x.model().get(k) == kept_member(v.get(k)) by {
        broadcast use lemma_member_concat, lemma_member_single;
        if names.contains(k) {
            reveal_strlit("configId");
            reveal_strlit("name");
            reveal_strlit("browser");
            reveal_strlit("os");
            reveal_strlit("device");
            reveal_strlit("resolution");
            assert("configId"@.len() == 8 && "name"@.len() == 4 && "browser"@.len() == 7 && "os"@.len() == 2 && "device"@.len() == 6 && "resolution"@.len() == 10);
            assert(names[0] == "configId"@ && names[1] == "name"@ && names[2] == "browser"@ && names[3] == "os"@ && names[4] == "device"@ && names[5] == "resolution"@);
        } else {
            lemma_member_unnamed(x.model()->Object_0, names, k);
            lemma_member_unnamed(v->Object_0, names, k);
        }
    }
}

/// A milestone read from a stored document writes back every member that
/// document carries, `null` members left out.
pub proof fn lemma_milestone_writes_what_it_read(x: Milestone, v: Json)
    requires
        Milestone::fits(v),
        x.read_from(v),
    ensures
        forall|k: Seq<char>| #[trigger] x.model().get(k) == kept_member(v.get(k)),
{
    let names = slice_texts(Milestone::FIELDS@);
    lemma_milestone_reads_back(x);
    assert forall|k: Seq<char>| #[trigger] x.model().get(k) == kept_member(v.get(k)) by {
        broadcast use lemma_member_concat, lemma_member_single;
        if names.contains(k) {
            reveal_strlit("milestoneId");
            reveal_strlit("name");
            reveal_strlit("description");
            reveal_strlit("startDate");
            reveal_strlit("targetDate");
            reveal_strlit("status");
            reveal_strlit("testSuiteIds");
            reveal_strlit("testRunIds");
            assert("milestoneId"@.len() == 11 && "name"@.len() == 4 && "description"@.len() == 11 && "startDate"@.len() == 9 && "targetDate"@.len() == 10 && "status"@.len() == 6 && "testSuiteIds"@.len() == 12 && "testRunIds"@.len() == 10);
            assert("milestoneId"@[0] != "description"@[0]);
            assert("targetDate"@[1] != "testRunIds"@[1]);
            assert(names[0] == "milestoneId"@ && names[1] == "name"@ && names[2] == "description"@ && names[3] == "startDate"@ && names[4] == "targetDate"@ && names[5] == "status"@ && names[6] == "testSuiteIds"@ && names[7] == "testRunIds"@);
        } else {
            lemma_member_unnamed(x.model()->Object_0, names, k);
            lemma_member_unnamed(v->Object_0, names, k);
        }
    }
}

} // verus!

//! The JSON documents the service stores and reads, as plain values.
//!
//! An object keeps its members in the order they were inserted; a lookup
//! answers the first member carrying the key, and an insertion replaces that
//! member's value or appends a new one.

use vstd::prelude::*;

use crate::text::{str_eq, chars_eq, chars_of};

verus! {

/// A JSON number: an unsigned integer, a negative integer, or any other number
/// kept in its textual form.
#[derive(Debug, Clone, PartialEq, Eq)]
pub enum JsonNumber {
    Unsigned(u64),
    Negative(i64),
    Decimal(String),
}

/// A JSON value.
#[derive(Debug)]
pub enum JsonValue {
    Null,
    Bool(bool),
    Number(JsonNumber),
    Str(String),
    Array(Vec<JsonValue>),
    Object(Vec<(String, JsonValue)>),
}

/// The mathematical model of a [`JsonNumber`].
pub enum NumberModel {
    Unsigned(u64),
    Negative(i64),
    Decimal(Seq<char>),
}

/// The mathematical model of a [`JsonValue`].
pub enum Json {
    Null,
    Bool(bool),
    Number(NumberModel),
    Str(Seq<char>),
    Array(Seq<Json>),
    Object(Seq<(Seq<char>, Json)>),
}

impl View for JsonNumber {
    type V = NumberModel;

    open spec fn view(&self) -> NumberModel {
        match self {
            JsonNumber::Unsigned(n) => NumberModel::Unsigned(*n),
            JsonNumber::Negative(n) => NumberModel::Negative(*n),
            JsonNumber::Decimal(s) => NumberModel::Decimal(s@),
        }
    }
}

/// The model of one value.
pub open spec fn json_model(value: JsonValue) -> Json
    decreases value,
{
    match value {
        JsonValue::Null => Json::Null,
        JsonValue::Bool(b) => Json::Bool(b),
        JsonValue::Number(n) => Json::Number(n@),
        JsonValue::Str(s) => Json::Str(s@),
        JsonValue::Array(v) => Json::Array(
            Seq::new(v@.len(), |i: int| if 0 <= i < v@.len() { json_model(v@[i]) } else { Json::Null }),
        ),
        JsonValue::Object(m) => Json::Object(
            Seq::new(
                m@.len(),
                |i: int| if 0 <= i < m@.len() { (m@[i].0@, json_model(m@[i].1)) } else { (Seq::empty(), Json::Null) },
            ),
        ),
    }
}

impl View for JsonValue {
    type V = Json;

    open spec fn view(&self) -> Json {
        json_model(*self)
    }
}

/// The value of the first member named `key`.
pub open spec fn member(members: Seq<(Seq<char>, Json)>, key: Seq<char>) -> Option<Json>
    decreases members.len(),
{
    if members.len() == 0 {
        None
    } else if members[0].0 == key {
        Some(members[0].1)
    } else {
        member(members.drop_first(), key)
    }
}

/// The members after `key` is given `value`: the first member with that key
/// takes the value, and a key no member carries is appended.
pub open spec fn with_member(members: Seq<(Seq<char>, Json)>, key: Seq<char>, value: Json) -> Seq<(Seq<char>, Json)>
    decreases members.len(),
{
    if members.len() == 0 {
        seq![(key, value)]
    } else if members[0].0 == key {
        members.update(0, (key, value))
    } else {
        seq![members[0]] + with_member(members.drop_first(), key, value)
    }
}

/// The members other than those named `key`.
pub open spec fn without_member(members: Seq<(Seq<char>, Json)>, key: Seq<char>) -> Seq<(Seq<char>, Json)>
    decreases members.len(),
{
    if members.len() == 0 {
        members
    } else if members[0].0 == key {
        without_member(members.drop_first(), key)
    } else {
        seq![members[0]] + without_member(members.drop_first(), key)
    }
}

impl Json {
    /// The member `key` of an object; nothing for any other value.
    pub open spec fn get(self, key: Seq<char>) -> Option<Json> {
        match self {
            Json::Object(members) => member(members, key),
            _ => None,
        }
    }

    /// The text of a string value.
    pub open spec fn text(self) -> Option<Seq<char>> {
        match self {
            Json::Str(s) => Some(s),
            _ => None,
        }
    }

    /// The text of member `key`, when it is a string.
    pub open spec fn str_at(self, key: Seq<char>) -> Option<Seq<char>> {
        match self.get(key) {
            Some(v) => v.text(),
            None => None,
        }
    }

    /// The number an unsigned integer holds.
    pub open spec fn unsigned(self) -> Option<u64> {
        match self {
            Json::Number(NumberModel::Unsigned(n)) => Some(n),
            _ => None,
        }
    }

    /// The elements of an array.
    pub open spec fn elements(self) -> Option<Seq<Json>> {
        match self {
            Json::Array(items) => Some(items),
            _ => None,
        }
    }

    /// This value with member `key` set to `value`; a value that is not an
    /// object is left as it is.
    pub open spec fn set(self, key: Seq<char>, value: Json) -> Json {
        match self {
            Json::Object(members) => Json::Object(with_member(members, key, value)),
            _ => self,
        }
    }

    /// This value without member `key`; a value that is not an object is left
    /// as it is.
    pub open spec fn unset(self, key: Seq<char>) -> Json {
        match self {
            Json::Object(members) => Json::Object(without_member(members, key)),
            _ => self,
        }
    }
}

pub proof fn lemma_member_skip(members: Seq<(Seq<char>, Json)>, key: Seq<char>, i: int)
    requires
        0 <= i <= members.len(),
        forall|k: int| 0 <= k < i ==> members[k].0 != key,
    ensures
        member(members, key) == member(members.subrange(i, members.len() as int), key),
    decreases i,
{
    if i > 0 {
        assert(members[0].0 != key);
        lemma_member_skip(members.drop_first(), key, i - 1);
        assert(members.drop_first().subrange(i - 1, members.drop_first().len() as int)
            =~= members.subrange(i, members.len() as int));
    } else {
        assert(members.subrange(0, members.len() as int) =~= members);
    }
}

/// The model of the members of an object.
pub open spec fn members_of(m: Seq<(String, JsonValue)>) -> Seq<(Seq<char>, Json)> {
    Seq::new(
        m.len(),
        |i: int| if 0 <= i < m.len() { (m[i].0@, json_model(m[i].1)) } else { (Seq::empty(), Json::Null) },
    )
}

/// The model of the elements of an array.
pub open spec fn values_of(v: Seq<JsonValue>) -> Seq<Json> {
    Seq::new(v.len(), |i: int| if 0 <= i < v.len() { json_model(v[i]) } else { Json::Null })
}

pub proof fn lemma_object_model(m: Vec<(String, JsonValue)>)
    ensures
        json_model(JsonValue::Object(m)) == Json::Object(members_of(m@)),
{
    let a = json_model(JsonValue::Object(m));
    assert(a is Object);
    assert(a->Object_0.len() == m@.len());
    assert forall|i: int| 0 <= i < m@.len() implies a->Object_0[i] == members_of(m@)[i] by {
    }
    assert(a->Object_0 =~= members_of(m@));
}

pub proof fn lemma_array_model(v: Vec<JsonValue>)
    ensures
        json_model(JsonValue::Array(v)) == Json::Array(values_of(v@)),
{
    let a = json_model(JsonValue::Array(v));
    assert(a->Array_0 =~= values_of(v@));
}

/// The position of the first member named `key`.
pub fn member_index(m: &Vec<(String, JsonValue)>, key: &str) -> (r: Option<usize>)
    ensures
        (match r {
            Some(i) => i < m@.len() && member(members_of(m@), key@) == Some(json_model(m@[i as int].1))
                && m@[i as int].0@ == key@ && forall|k: int| 0 <= k < i ==> m@[k].0@ != key@,
            None => member(members_of(m@), key@) is None && forall|k: int| 0 <= k < m@.len() ==> m@[k].0@ != key@,
        }),
{
    let ghost ms = members_of(m@);
    let mut i: usize = 0;
    while i < m.len()
        invariant
            i <= m.len(),
            ms == members_of(m@),
            forall|k: int| 0 <= k < i ==> ms[k].0 != key@,
            forall|k: int| 0 <= k < i ==> m@[k].0@ != key@,
        decreases m.len() - i,
    {
        if str_eq(m[i].0.as_str(), key) {
            proof { lemma_member_found(ms, key@, i as int); }
            return Some(i);
        }
        i = i + 1;
    }
    proof { lemma_member_skip(ms, key@, i as int); }
    None
}

proof fn lemma_member_found(ms: Seq<(Seq<char>, Json)>, key: Seq<char>, i: int)
    requires
        0 <= i < ms.len(),
        ms[i].0 == key,
        forall|k: int| 0 <= k < i ==> ms[k].0 != key,
    ensures
        member(ms, key) == Some(ms[i].1),
{
    lemma_member_skip(ms, key, i);
    let sub = ms.subrange(i, ms.len() as int);
    assert(sub[0] == ms[i]);
}

impl JsonValue {
    /// Member `key` of an object.
    pub fn get(&self, key: &str) -> (r: Option<&JsonValue>)
        ensures
            (match r {
                Some(v) => self@.get(key@) == Some(v@),
                None => self@.get(key@) is None,
            }),
    {
        match self {
            JsonValue::Object(m) => {
                proof { lemma_object_model(*m); }
                match member_index(m, key) {
                    Some(i) => Some(&m[i].1),
                    None => None,
                }
            },
            _ => None,
        }
    }

    /// The text of a string value.
    pub fn as_str(&self) -> (r: Option<&String>)
        ensures
            (match r {
                Some(s) => self@.text() == Some(s@),
                None => self@.text() is None,
            }),
    {
        match self {
            JsonValue::Str(s) => Some(s),
            _ => None,
        }
    }

    /// The text of member `key`, when it is a string.
    pub fn str_at(&self, key: &str) -> (r: Option<&String>)
        ensures
            (match r {
                Some(s) => self@.str_at(key@) == Some(s@),
                None => self@.str_at(key@) is None,
            }),
    {
        match self.get(key) {
            Some(v) => v.as_str(),
            None => None,
        }
    }

    /// The number an unsigned integer holds.
    pub fn as_u64(&self) -> (r: Option<u64>)
        ensures
            r == self@.unsigned(),
    {
        match self {
            JsonValue::Number(JsonNumber::Unsigned(n)) => Some(*n),
            _ => None,
        }
    }

    /// The elements of an array.
    pub fn as_array(&self) -> (r: Option<&Vec<JsonValue>>)
        ensures
            (match r {
                Some(v) => self@.elements() == Some(values_of(v@)),
                None => self@.elements() is None,
            }),
    {
        match self {
            JsonValue::Array(v) => Some(v),
            _ => None,
        }
    }

    /// Whether this is `null`.
    pub fn is_null(&self) -> (r: bool)
        ensures
            r == (self@ is Null),
    {
        match self {
            JsonValue::Null => true,
            _ => false,
        }
    }

    /// Whether this is an object.
    pub fn is_object(&self) -> (r: bool)
        ensures
            r == (self@ is Object),
    {
        match self {
            JsonValue::Object(_) => true,
            _ => false,
        }
    }
}

} // verus!

verus! {

/// Whether two numbers are the same number in the same representation.
pub fn number_eq(a: &JsonNumber, b: &JsonNumber) -> (r: bool)
    ensures
        r == (a@ == b@),
{
    match (a, b) {
        (JsonNumber::Unsigned(x), JsonNumber::Unsigned(y)) => *x == *y,
        (JsonNumber::Negative(x), JsonNumber::Negative(y)) => *x == *y,
        (JsonNumber::Decimal(x), JsonNumber::Decimal(y)) => str_eq(x.as_str(), y.as_str()),
        _ => false,
    }
}

/// A copy of a number.
pub fn number_clone(a: &JsonNumber) -> (r: JsonNumber)
    ensures
        r@ == a@,
{
    match a {
        JsonNumber::Unsigned(x) => JsonNumber::Unsigned(*x),
        JsonNumber::Negative(x) => JsonNumber::Negative(*x),
        JsonNumber::Decimal(x) => JsonNumber::Decimal(x.clone()),
    }
}

/// Whether two values are the same JSON document, member order included.
pub fn json_eq(a: &JsonValue, b: &JsonValue) -> (r: bool)
    ensures
        r == (a@ == b@),
    decreases a,
{
    match (a, b) {
        (JsonValue::Null, JsonValue::Null) => true,
        (JsonValue::Bool(x), JsonValue::Bool(y)) => *x == *y,
        (JsonValue::Number(x), JsonValue::Number(y)) => number_eq(x, y),
        (JsonValue::Str(x), JsonValue::Str(y)) => str_eq(x.as_str(), y.as_str()),
        (JsonValue::Array(x), JsonValue::Array(y)) => {
            proof {
                lemma_array_model(*x);
                lemma_array_model(*y);
            }
            if x.len() != y.len() {
                assert(values_of(x@).len() != values_of(y@).len());
                return false;
            }
            let mut i: usize = 0;
            while i < x.len()
                invariant
                    x.len() == y.len(),
                    i <= x.len(),
                    forall|k: int| 0 <= k < i ==> json_model(x@[k]) == json_model(y@[k]),
                    forall|k: int| 0 <= k < x@.len() ==> decreases_to!(*a => x@[k]),
                    a@ == Json::Array(values_of(x@)),
                    b@ == Json::Array(values_of(y@)),
                decreases x.len() - i,
            {
                if !json_eq(&x[i], &y[i]) {
                    assert(values_of(x@)[i as int] != values_of(y@)[i as int]);
                    return false;
                }
                i = i + 1;
            }
            assert(values_of(x@) =~= values_of(y@));
            true
        },
        (JsonValue::Object(x), JsonValue::Object(y)) => {
            proof {
                lemma_object_model(*x);
                lemma_object_model(*y);
            }
            if x.len() != y.len() {
                assert(members_of(x@).len() != members_of(y@).len());
                return false;
            }
            let mut i: usize = 0;
            while i < x.len()
                invariant
                    x.len() == y.len(),
                    i <= x.len(),
                    forall|k: int| 0 <= k < i ==> members_of(x@)[k] == members_of(y@)[k],
                    forall|k: int| 0 <= k < x@.len() ==> decreases_to!(*a => x@[k].1),
                    a@ == Json::Object(members_of(x@)),
                    b@ == Json::Object(members_of(y@)),
                decreases x.len() - i,
            {
                if !str_eq(x[i].0.as_str(), y[i].0.as_str()) {
                    assert(members_of(x@)[i as int].0 != members_of(y@)[i as int].0);
                    return false;
                }
                if !json_eq(&x[i].1, &y[i].1) {
                    assert(members_of(x@)[i as int].1 != members_of(y@)[i as int].1);
                    return false;
                }
                i = i + 1;
            }
            assert(members_of(x@) =~= members_of(y@));
            true
        },
        (JsonValue::Null, _) => false,
        (JsonValue::Bool(_), _) => false,
        (JsonValue::Number(_), _) => false,
        (JsonValue::Str(_), _) => false,
        (JsonValue::Array(_), _) => false,
        (JsonValue::Object(_), _) => false,
    }
}

/// A copy of a value.
pub fn json_clone(a: &JsonValue) -> (r: JsonValue)
    ensures
        r@ == a@,
    decreases a,
{
    match a {
        JsonValue::Null => JsonValue::Null,
        JsonValue::Bool(x) => JsonValue::Bool(*x),
        JsonValue::Number(x) => JsonValue::Number(number_clone(x)),
        JsonValue::Str(x) => JsonValue::Str(x.clone()),
        JsonValue::Array(x) => {
            let mut out: Vec<JsonValue> = Vec::new();
            let mut i: usize = 0;
            while i < x.len()
                invariant
                    i <= x.len(),
                    out@.len() == i,
                    forall|k: int| 0 <= k < i ==> json_model(out@[k]) == json_model(x@[k]),
                    forall|k: int| 0 <= k < x@.len() ==> decreases_to!(*a => x@[k]),
                decreases x.len() - i,
            {
                let c = json_clone(&x[i]);
                out.push(c);
                i = i + 1;
            }
            proof {
                lemma_array_model(*x);
                lemma_array_model(out);
                assert(values_of(out@) =~= values_of(x@));
            }
            JsonValue::Array(out)
        },
        JsonValue::Object(x) => {
            let mut out: Vec<(String, JsonValue)> = Vec::new();
            let mut i: usize = 0;
            while i < x.len()
                invariant
                    i <= x.len(),
                    out@.len() == i,
                    forall|k: int| 0 <= k < i ==> members_of(out@)[k] == members_of(x@)[k],
                    forall|k: int| 0 <= k < x@.len() ==> decreases_to!(*a => x@[k].1),
                decreases x.len() - i,
            {
                let c = json_clone(&x[i].1);
                out.push((x[i].0.clone(), c));
                i = i + 1;
            }
            proof {
                lemma_object_model(*x);
                lemma_object_model(out);
                assert(members_of(out@) =~= members_of(x@));
            }
            JsonValue::Object(out)
        },
    }
}


proof fn lemma_with_member_absent(ms: Seq<(Seq<char>, Json)>, key: Seq<char>, value: Json)
    requires
        forall|k: int| 0 <= k < ms.len() ==> ms[k].0 != key,
    ensures
        with_member(ms, key, value) == ms.push((key, value)),
    decreases ms.len(),
{
    if ms.len() > 0 {
        assert(ms[0].0 != key);
        lemma_with_member_absent(ms.drop_first(), key, value);
        assert(seq![ms[0]] + ms.drop_first().push((key, value)) =~= ms.push((key, value)));
    }
}

proof fn lemma_with_member_found(ms: Seq<(Seq<char>, Json)>, key: Seq<char>, value: Json, i: int)
    requires
        0 <= i < ms.len(),
        ms[i].0 == key,
        forall|k: int| 0 <= k < i ==> ms[k].0 != key,
    ensures
        with_member(ms, key, value) == ms.update(i, (key, value)),
    decreases i,
{
    if i > 0 {
        assert(ms[0].0 != key);
        lemma_with_member_found(ms.drop_first(), key, value, i - 1);
        assert(seq![ms[0]] + ms.drop_first().update(i - 1, (key, value)) =~= ms.update(i, (key, value)));
    }
}

proof fn lemma_without_member_append(a: Seq<(Seq<char>, Json)>, b: Seq<(Seq<char>, Json)>, key: Seq<char>)
    ensures
        without_member(a + b, key) == without_member(a, key) + without_member(b, key),
    decreases a.len(),
{
    if a.len() == 0 {
        assert(a + b =~= b);
        assert(without_member(a, key) + without_member(b, key) =~= without_member(b, key));
    } else {
        lemma_without_member_append(a.drop_first(), b, key);
        assert((a + b).drop_first() =~= a.drop_first() + b);
        assert((a + b)[0] == a[0]);
        if a[0].0 == key {
        } else {
            assert(seq![a[0]] + (without_member(a.drop_first(), key) + without_member(b, key))
                =~= (seq![a[0]] + without_member(a.drop_first(), key)) + without_member(b, key));
        }
    }
}

proof fn lemma_without_member_single(x: (Seq<char>, Json), key: Seq<char>)
    ensures
        without_member(seq![x], key) == (if x.0 == key { Seq::<(Seq<char>, Json)>::empty() } else { seq![x] }),
{
    assert(seq![x].drop_first() =~= Seq::<(Seq<char>, Json)>::empty());
    assert(without_member(Seq::<(Seq<char>, Json)>::empty(), key) =~= Seq::<(Seq<char>, Json)>::empty());
    if x.0 != key {
        assert(seq![x] + Seq::<(Seq<char>, Json)>::empty() =~= seq![x]);
    }
}

impl JsonValue {
    /// Sets member `key` of an object to `value`; any other value is left as
    /// it is.
    pub fn insert(&mut self, key: &str, value: JsonValue)
        ensures
            final(self)@ == old(self)@.set(key@, value@),
    {
        match self {
            JsonValue::Object(m) => {
                proof { lemma_object_model(*m); }
                let ghost ms = members_of(m@);
                let name: String = key.to_owned();
                match member_index(m, key) {
                    Some(i) => {
                        proof {
                            let k = i as int;
                            assert forall|j: int| 0 <= j < k implies ms[j].0 != key@ by {
                                assert(ms[j].0 == m@[j].0@);
                            }
                            lemma_member_skip(ms, key@, k);
                            lemma_with_member_found(ms, key@, value@, k);
                        }
                        m.set(i, (name, value));
                        proof {
                            assert(members_of(m@) =~= ms.update(i as int, (key@, value@)));
                            lemma_object_model(*m);
                        }
                    },
                    None => {
                        proof {
                            assert forall|j: int| 0 <= j < ms.len() implies ms[j].0 != key@ by {
                                assert(ms[j].0 == m@[j].0@);
                            }
                            lemma_with_member_absent(ms, key@, value@);
                        }
                        m.push((name, value));
                        proof {
                            assert(members_of(m@) =~= ms.push((key@, value@)));
                            lemma_object_model(*m);
                        }
                    },
                }
            },
            _ => {},
        }
    }

    /// Removes every member named `key` from an object; any other value is left
    /// as it is.
    pub fn remove(&mut self, key: &str)
        ensures
            final(self)@ == old(self)@.unset(key@),
    {
        match self {
            JsonValue::Object(m) => {
                proof { lemma_object_model(*m); }
                let ghost ms = members_of(m@);
                let mut kept: Vec<(String, JsonValue)> = Vec::new();
                let mut i: usize = 0;
                while i < m.len()
                    invariant
                        i <= m.len(),
                        ms == members_of(m@),
                        members_of(kept@) == without_member(ms.take(i as int), key@),
                    decreases m.len() - i,
                {
                    let entry = (m[i].0.clone(), json_clone(&m[i].1));
                    proof {
                        assert(ms.take(i + 1) =~= ms.take(i as int) + seq![ms[i as int]]);
                        lemma_without_member_append(ms.take(i as int), seq![ms[i as int]], key@);
                        lemma_without_member_single(ms[i as int], key@);
                    }
                    if !str_eq(m[i].0.as_str(), key) {
                        let ghost before = kept@;
                        kept.push(entry);
                        proof {
                            assert(members_of(kept@) =~= members_of(before) + seq![ms[i as int]]);
                        }
                    } else {
                        assert(without_member(ms.take(i as int) + seq![ms[i as int]], key@)
                            =~= without_member(ms.take(i as int), key@));
                    }
                    i = i + 1;
                }
                proof {
                    assert(ms.take(m.len() as int) =~= ms);
                    lemma_object_model(kept);
                }
                *m = kept;
            },
            _ => {},
        }
    }
}

} // verus!

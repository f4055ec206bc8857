//! A plain-value model of JSON documents.
//!
//! Bodies exchanged with backends are JSON. The translators and routing rules
//! read and build them through this model, whose objects are ordered lists of
//! `(key, value)` pairs; a lookup returns the first pair with the key.

use vstd::prelude::*;

verus! {

/// A JSON number: an unsigned or signed integer, or any other number kept as
/// its decimal text.
#[derive(Clone, Debug, PartialEq)]
pub enum JsonNumber {
    Unsigned(u64),
    Signed(i64),
    Decimal(String),
}

/// A JSON value.
#[derive(Debug)]
pub enum Json {
    Null,
    Bool(bool),
    Number(JsonNumber),
    Str(String),
    Array(Vec<Json>),
    Object(Vec<(String, Json)>),
}

/// The value stored under `key` in `fields`: the first pair with that key.
pub open spec fn first_field(fields: Seq<(String, Json)>, key: Seq<char>) -> Option<Json>
    decreases fields.len(),
{
    if fields.len() == 0 {
        None
    } else if fields[0].0@ == key {
        Some(fields[0].1)
    } else {
        first_field(fields.drop_first(), key)
    }
}

/// The member `key` of `v`, when `v` is an object that has one.
pub open spec fn field(v: Json, key: Seq<char>) -> Option<Json> {
    match v {
        Json::Object(fields) => first_field(fields@, key),
        _ => None,
    }
}

/// The text of `v`, when `v` is a string.
pub open spec fn text_of(v: Option<Json>) -> Option<Seq<char>> {
    match v {
        Some(Json::Str(s)) => Some(s@),
        _ => None,
    }
}

/// The value of `v` as an unsigned integer, when it is one.
pub open spec fn unsigned_of(v: Option<Json>) -> Option<u64> {
    match v {
        Some(Json::Number(JsonNumber::Unsigned(n))) => Some(n),
        _ => None,
    }
}

/// Looking a key up after appending a pair.
pub proof fn lemma_first_field_push(fields: Seq<(String, Json)>, k: String, v: Json, key: Seq<char>)
    ensures
        first_field(fields.push((k, v)), key) == if first_field(fields, key) is Some {
            first_field(fields, key)
        } else if k@ == key {
            Some(v)
        } else {
            None
        },
    decreases fields.len(),
{
    if fields.len() > 0 {
        assert(fields.push((k, v)).drop_first() =~= fields.drop_first().push((k, v)));
        assert(fields.push((k, v))[0] == fields[0]);
        lemma_first_field_push(fields.drop_first(), k, v, key);
    } else {
        assert(fields.push((k, v)).drop_first() =~= Seq::<(String, Json)>::empty());
        assert(fields.push((k, v))[0] == (k, v));
        assert(first_field(Seq::<(String, Json)>::empty(), key) is None);
    }
}

/// Replacing the value of the pair at `i` changes no lookup of another key.
pub proof fn lemma_first_field_update(fields: Seq<(String, Json)>, i: int, v: Json, key: Seq<char>)
    requires
        0 <= i < fields.len(),
        fields[i].0@ != key,
    ensures
        first_field(fields.update(i, (fields[i].0, v)), key) == first_field(fields, key),
    decreases fields.len(),
{
    let u = fields.update(i, (fields[i].0, v));
    if i == 0 {
        assert(u.drop_first() =~= fields.drop_first());
    } else if fields[0].0@ != key {
        assert(u.drop_first() =~= fields.drop_first().update(i - 1, (fields[i].0, v)));
        lemma_first_field_update(fields.drop_first(), i - 1, v, key);
    }
}

/// The pair at `i` is the first with its key.
pub proof fn lemma_first_field_at(fields: Seq<(String, Json)>, i: int, key: Seq<char>)
    requires
        0 <= i < fields.len(),
        fields[i].0@ == key,
        forall|j: int| 0 <= j < i ==> fields[j].0@ != key,
    ensures
        first_field(fields, key) == Some(fields[i].1),
    decreases i,
{
    if i > 0 {
        assert(fields.drop_first()[i - 1] == fields[i]);
        assert forall|j: int| 0 <= j < i - 1 implies fields.drop_first()[j].0@ != key by {
            assert(fields.drop_first()[j] == fields[j + 1]);
        }
        lemma_first_field_at(fields.drop_first(), i - 1, key);
    }
}

/// With distinct keys, every pair is found by its key.
pub proof fn lemma_unique_lookup(fields: Seq<(String, Json)>, i: int)
    requires
        crate::config::names_unique(fields),
        0 <= i < fields.len(),
    ensures
        first_field(fields, fields[i].0@) == Some(fields[i].1),
{
    lemma_first_field_at(fields, i, fields[i].0@);
}

/// The member `key` of `v`, when `v` is present.
pub open spec fn member(v: Option<Json>, key: Seq<char>) -> Option<Json> {
    match v {
        Some(x) => field(x, key),
        None => None,
    }
}

/// The first element of `v`, when it is a non-empty array.
pub open spec fn first_element(v: Option<Json>) -> Option<Json> {
    match v {
        Some(Json::Array(items)) => if items@.len() > 0 { Some(items@[0]) } else { None },
        _ => None,
    }
}

/// No pair has the key.
pub proof fn lemma_first_field_absent(fields: Seq<(String, Json)>, key: Seq<char>)
    requires
        forall|j: int| 0 <= j < fields.len() ==> fields[j].0@ != key,
    ensures
        first_field(fields, key) is None,
    decreases fields.len(),
{
    if fields.len() > 0 {
        assert forall|j: int| 0 <= j < fields.drop_first().len() implies fields.drop_first()[j].0@ != key by {
            assert(fields.drop_first()[j] == fields[j + 1]);
        }
        lemma_first_field_absent(fields.drop_first(), key);
    }
}

/// Position of the first pair with the key.
pub fn field_position(fields: &Vec<(String, Json)>, key: &str) -> (r: Option<usize>)
    ensures
        r is None <==> first_field(fields@, key@) is None,
        r is Some ==> r->0 < fields@.len() && fields@[r->0 as int].0@ == key@
            && first_field(fields@, key@) == Some(fields@[r->0 as int].1),
        r is Some ==> forall|j: int| 0 <= j < r->0 ==> #[trigger] fields@[j].0@ != key@,
{
    let mut i: usize = 0;
    assert(fields@.subrange(0, fields@.len() as int) =~= fields@);
    while i < fields.len()
        invariant
            i <= fields@.len(),
            forall|j: int| 0 <= j < i ==> #[trigger] fields@[j].0@ != key@,
            first_field(fields@, key@) == first_field(fields@.subrange(i as int, fields@.len() as int), key@),
        decreases fields@.len() - i,
    {
        let rest = Ghost(fields@.subrange(i as int, fields@.len() as int));
        assert(rest@.drop_first() =~= fields@.subrange(i + 1, fields@.len() as int));
        assert(rest@[0] == fields@[i as int]);
        let name: &str = fields[i].0.as_str();
        if crate::text::same_text(name, key) {
            return Some(i);
        }
        i = i + 1;
    }
    None
}

/// Moves the value of the first pair with the key out, leaving `null` in
/// its place; lookups of other keys are unchanged.
pub fn take_field(fields: &mut Vec<(String, Json)>, key: &str) -> (r: Option<Json>)
    ensures
        r == first_field(old(fields)@, key@),
        forall|k: Seq<char>| k != key@ ==> #[trigger] first_field(final(fields)@, k) == first_field(old(fields)@, k),
{
    match field_position(fields, key) {
        Some(i) => {
            let ghost before = fields@;
            let name = fields[i].0.clone();
            let mut pair = (name, Json::Null);
            fields.set_and_swap(i, &mut pair);
            proof {
                assert forall|k: Seq<char>| k != key@ implies #[trigger] first_field(fields@, k) == first_field(before, k) by {
                    lemma_first_field_update(before, i as int, Json::Null, k);
                    assert(fields@ =~= before.update(i as int, (before[i as int].0, Json::Null)));
                }
            }
            Some(pair.1)
        },
        None => None,
    }
}

/// Appends a member to an object under construction.
pub fn push_field(fields: &mut Vec<(String, Json)>, key: &str, v: Json)
    ensures
        final(fields)@ == old(fields)@.push((final(fields)@.last().0, v)),
        final(fields)@.last().0@ == key@,
{
    fields.push((key.to_owned(), v));
}

impl Json {
    /// Looks up the member `key` of an object.
    pub fn get(&self, key: &str) -> (r: Option<&Json>)
        ensures
            r is Some <==> field(*self, key@) is Some,
            r is Some ==> field(*self, key@) == Some(*r->0),
    {
        match self {
            Json::Object(fields) => {
                let mut i: usize = 0;
                assert(fields@.subrange(0, fields@.len() as int) =~= fields@);
                while i < fields.len()
                    invariant
                        i <= fields@.len(),
                        *self == Json::Object(*fields),
                        first_field(fields@, key@) == first_field(
                            fields@.subrange(i as int, fields@.len() as int),
                            key@,
                        ),
                    decreases fields@.len() - i,
                {
                    let rest = Ghost(fields@.subrange(i as int, fields@.len() as int));
                    assert(rest@.drop_first() =~= fields@.subrange(i + 1, fields@.len() as int));
                    assert(rest@[0] == fields@[i as int]);
                    let name: &str = fields[i].0.as_str();
                    if crate::text::same_text(name, key) {
                        assert(fields@[i as int].0@ == key@);
                        assert(first_field(rest@, key@) == Some(fields@[i as int].1));
                        return Some(&fields[i].1);
                    }
                    i = i + 1;
                }
                None
            },
            _ => None,
        }
    }

    /// The text of a string value.
    pub fn as_str(&self) -> (r: Option<&str>)
        ensures
            r is Some <==> self is Str,
            r is Some ==> r->0@ == self->Str_0@,
    {
        match self {
            Json::Str(s) => Some(s.as_str()),
            _ => None,
        }
    }

    /// The value of a non-negative integer.
    pub fn as_u64(&self) -> (r: Option<u64>)
        ensures
            r == unsigned_of(Some(*self)),
    {
        match self {
            Json::Number(JsonNumber::Unsigned(n)) => Some(*n),
            _ => None,
        }
    }
}

} // verus!

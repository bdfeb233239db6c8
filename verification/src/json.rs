//! The structured value model for message payloads: a JSON value tree whose
//! numbers are 64-bit signed integers, together with its mathematical model.

use vstd::prelude::*;

verus! {

broadcast use vstd::std_specs::vec::axiom_vec_index_decreases;

/// One `key: value` member of a JSON object.
#[derive(Debug)]
pub struct JsonMember {
    pub key: String,
    pub value: JsonValue,
}

/// An in-memory JSON value. Strings are UTF-8 text; numbers are restricted
/// to 64-bit signed integers; objects keep their members in order.
#[derive(Debug)]
pub enum JsonValue {
    Null,
    Bool(bool),
    Int(i64),
    Str(String),
    Array(Vec<JsonValue>),
    Object(Vec<JsonMember>),
}

/// The mathematical model of a `JsonValue`: the same tree with strings as
/// character sequences and numbers as unbounded integers.
pub enum Jv {
    Null,
    Bool(bool),
    Int(int),
    Str(Seq<char>),
    Arr(Seq<Jv>),
    Obj(Seq<(Seq<char>, Jv)>),
}

impl JsonValue {
    /// The model of this value.
    pub open spec fn jv(self) -> Jv
        decreases self, 0int,
    {
        match self {
            JsonValue::Null => Jv::Null,
            JsonValue::Bool(b) => Jv::Bool(b),
            JsonValue::Int(i) => Jv::Int(i as int),
            JsonValue::Str(s) => Jv::Str(s@),
            JsonValue::Array(items) => Jv::Arr(Self::jv_list(items, 0)),
            JsonValue::Object(fields) => Jv::Obj(Self::jv_members(fields, 0)),
        }
    }

    /// The models of the elements of `items` from position `i` on.
    pub open spec fn jv_list(items: Vec<JsonValue>, i: int) -> Seq<Jv>
        decreases items, items@.len() - i,
    {
        if i < 0 || i >= items@.len() {
            Seq::empty()
        } else {
            seq![items[i].jv()] + Self::jv_list(items, i + 1)
        }
    }

    /// The models of the members of `fields` from position `i` on.
    pub open spec fn jv_members(fields: Vec<JsonMember>, i: int) -> Seq<(Seq<char>, Jv)>
        decreases fields, fields@.len() - i,
    {
        if i < 0 || i >= fields@.len() {
            Seq::empty()
        } else {
            seq![(fields[i].key@, fields[i].value.jv())] + Self::jv_members(fields, i + 1)
        }
    }

    /// Whether this value is the null value.
    pub fn is_null(&self) -> (r: bool)
        ensures
            r == (self.jv() matches Jv::Null),
    {
        matches!(self, JsonValue::Null)
    }
}

/// The value of the first member of `ms` whose key is `key`, if any.
pub open spec fn obj_get(ms: Seq<(Seq<char>, Jv)>, key: Seq<char>) -> Option<Jv>
    decreases ms.len(),
{
    if ms.len() == 0 {
        None
    } else if ms[0].0 == key {
        Some(ms[0].1)
    } else {
        obj_get(ms.drop_first(), key)
    }
}

/// Looking a key up is unaffected by dropping leading members with other keys.
pub proof fn lemma_obj_get_skip(ms: Seq<(Seq<char>, Jv)>, key: Seq<char>, i: int)
    requires
        0 <= i <= ms.len(),
        forall|j: int| 0 <= j < i ==> ms[j].0 != key,
    ensures
        obj_get(ms, key) == obj_get(ms.skip(i), key),
    decreases i,
{
    if i > 0 {
        assert(ms.skip(0) =~= ms);
        lemma_obj_get_skip(ms, key, i - 1);
        assert(ms.skip(i - 1).drop_first() =~= ms.skip(i));
        assert(ms.skip(i - 1)[0] == ms[i - 1]);
    } else {
        assert(ms.skip(0) =~= ms);
    }
}

/// Looking up a key finds the first member that carries it.
pub proof fn lemma_obj_get_hit(ms: Seq<(Seq<char>, Jv)>, key: Seq<char>, k: int)
    requires
        0 <= k < ms.len(),
        ms[k].0 == key,
        forall|j: int| 0 <= j < k ==> ms[j].0 != key,
    ensures
        obj_get(ms, key) == Some(ms[k].1),
{
    lemma_obj_get_skip(ms, key, k);
    assert(ms.skip(k)[0] == ms[k]);
}

/// Looking up a key that no member carries finds nothing.
pub proof fn lemma_obj_get_miss(ms: Seq<(Seq<char>, Jv)>, key: Seq<char>)
    requires
        forall|j: int| 0 <= j < ms.len() ==> ms[j].0 != key,
    ensures
        obj_get(ms, key) is None,
{
    lemma_obj_get_skip(ms, key, ms.len() as int);
    assert(ms.skip(ms.len() as int) =~= Seq::<(Seq<char>, Jv)>::empty());
}

/// The first member of `fields` whose key is `key`, if any.
pub fn lookup<'a>(fields: &'a Vec<JsonMember>, key: &str) -> (r: Option<&'a JsonValue>)
    ensures
        match r {
            Some(v) => obj_get(JsonValue::jv_members(*fields, 0), key@) == Some(v.jv()),
            None => obj_get(JsonValue::jv_members(*fields, 0), key@) is None,
        },
{
    let ghost ms = JsonValue::jv_members(*fields, 0);
    proof {
        lemma_jv_members(*fields, 0);
    }
    let mut i: usize = 0;
    while i < fields.len()
        invariant
            i <= fields.len(),
            ms == JsonValue::jv_members(*fields, 0),
            ms.len() == fields@.len(),
            forall|j: int| 0 <= j < ms.len() ==> ms[j] == (fields@[j].key@, fields@[j].value.jv()),
            forall|j: int| 0 <= j < i ==> ms[j].0 != key@,
        decreases fields.len() - i,
    {
        if crate::text::str_eq(fields[i].key.as_str(), key) {
            proof {
                lemma_obj_get_skip(ms, key@, i as int);
                assert(ms.skip(i as int)[0] == ms[i as int]);
            }
            return Some(&fields[i].value);
        }
        i += 1;
    }
    proof {
        lemma_obj_get_skip(ms, key@, ms.len() as int);
        assert(ms.skip(ms.len() as int) =~= Seq::<(Seq<char>, Jv)>::empty());
    }
    None
}

impl JsonValue {
    /// A structurally identical copy of this value.
    #[verifier::loop_isolation(false)]
    pub fn deep_clone(&self) -> (r: JsonValue)
        ensures
            r.jv() == self.jv(),
        decreases self,
    {
        match self {
            JsonValue::Null => JsonValue::Null,
            JsonValue::Bool(b) => JsonValue::Bool(*b),
            JsonValue::Int(i) => JsonValue::Int(*i),
            JsonValue::Str(s) => JsonValue::Str(s.clone()),
            JsonValue::Array(items) => {
                let mut out: Vec<JsonValue> = Vec::new();
                let mut i: usize = 0;
                while i < items.len()
                    invariant
                        i <= items.len(),
                        out@.len() == i,
                        forall|j: int| 0 <= j < i ==> out@[j].jv() == items@[j].jv(),
                    decreases items.len() - i,
                {
                    proof {
                        assert(decreases_to!(*self => *items));
                        assert(decreases_to!(*items => items@[i as int]));
                    }
                    let c = items[i].deep_clone();
                    out.push(c);
                    i += 1;
                }
                proof {
                    lemma_jv_list(out, 0);
                    lemma_jv_list(*items, 0);
                    assert(Self::jv_list(out, 0) =~= Self::jv_list(*items, 0));
                }
                JsonValue::Array(out)
            },
            JsonValue::Object(fields) => {
                let mut out: Vec<JsonMember> = Vec::new();
                let mut i: usize = 0;
                while i < fields.len()
                    invariant
                        i <= fields.len(),
                        out@.len() == i,
                        forall|j: int| 0 <= j < i ==> out@[j].key@ == fields@[j].key@
                            && out@[j].value.jv() == fields@[j].value.jv(),
                    decreases fields.len() - i,
                {
                    proof {
                        assert(decreases_to!(*self => *fields));
                        assert(decreases_to!(*fields => fields@[i as int]));
                    }
                    let k = fields[i].key.clone();
                    let v = fields[i].value.deep_clone();
                    out.push(JsonMember { key: k, value: v });
                    i += 1;
                }
                proof {
                    lemma_jv_members(out, 0);
                    lemma_jv_members(*fields, 0);
                    assert(Self::jv_members(out, 0) =~= Self::jv_members(*fields, 0));
                }
                JsonValue::Object(out)
            },
        }
    }

    /// Structural equality of two values, decided on their models.
    #[verifier::loop_isolation(false)]
    pub fn deep_eq(&self, other: &JsonValue) -> (r: bool)
        ensures
            r == (self.jv() == other.jv()),
        decreases self,
    {
        match (self, other) {
            (JsonValue::Null, JsonValue::Null) => true,
            (JsonValue::Bool(a), JsonValue::Bool(b)) => a == b,
            (JsonValue::Int(a), JsonValue::Int(b)) => a == b,
            (JsonValue::Str(a), JsonValue::Str(b)) => crate::text::str_eq(
                a.as_str(),
                b.as_str(),
            ),
            (JsonValue::Array(a), JsonValue::Array(b)) => {
                proof {
                    lemma_jv_list(*a, 0);
                    lemma_jv_list(*b, 0);
                }
                if a.len() != b.len() {
                    return false;
                }
                let mut i: usize = 0;
                while i < a.len()
                    invariant
                        i <= a.len(),
                        a@.len() == b@.len(),
                        Self::jv_list(*a, 0).len() == a@.len(),
                        Self::jv_list(*b, 0).len() == b@.len(),
                        forall|j: int|
                            0 <= j < a@.len() ==> Self::jv_list(*a, 0)[j] == a@[j].jv(),
                        forall|j: int|
                            0 <= j < b@.len() ==> Self::jv_list(*b, 0)[j] == b@[j].jv(),
                        forall|j: int| 0 <= j < i ==> a@[j].jv() == b@[j].jv(),
                    decreases a.len() - i,
                {
                    proof {
                        assert(decreases_to!(*self => *a));
                        assert(decreases_to!(*a => a@[i as int]));
                    }
                    if !a[i].deep_eq(&b[i]) {
                        proof {
                            if self.jv() == other.jv() {
                                assert(Self::jv_list(*a, 0)[i as int] == Self::jv_list(
                                    *b,
                                    0,
                                )[i as int]);
                            }
                        }
                        return false;
                    }
                    i += 1;
                }
                proof {
                    assert(Self::jv_list(*a, 0) =~= Self::jv_list(*b, 0));
                }
                true
            },
            (JsonValue::Object(a), JsonValue::Object(b)) => {
                proof {
                    lemma_jv_members(*a, 0);
                    lemma_jv_members(*b, 0);
                }
                if a.len() != b.len() {
                    return false;
                }
                let mut i: usize = 0;
                while i < a.len()
                    invariant
                        i <= a.len(),
                        a@.len() == b@.len(),
                        Self::jv_members(*a, 0).len() == a@.len(),
                        Self::jv_members(*b, 0).len() == b@.len(),
                        forall|j: int|
                            0 <= j < a@.len() ==> Self::jv_members(*a, 0)[j] == (
                                a@[j].key@,
                                a@[j].value.jv(),
                            ),
                        forall|j: int|
                            0 <= j < b@.len() ==> Self::jv_members(*b, 0)[j] == (
                                b@[j].key@,
                                b@[j].value.jv(),
                            ),
                        forall|j: int|
                            0 <= j < i ==> a@[j].key@ == b@[j].key@ && a@[j].value.jv()
                                == b@[j].value.jv(),
                    decreases a.len() - i,
                {
                    proof {
                        assert(decreases_to!(*self => *a));
                        assert(decreases_to!(*a => a@[i as int]));
                    }
                    if !crate::text::str_eq(a[i].key.as_str(), b[i].key.as_str()) {
                        proof {
                            if self.jv() == other.jv() {
                                assert(Self::jv_members(*a, 0)[i as int] == Self::jv_members(
                                    *b,
                                    0,
                                )[i as int]);
                            }
                        }
                        return false;
                    }
                    if !a[i].value.deep_eq(&b[i].value) {
                        proof {
                            if self.jv() == other.jv() {
                                assert(Self::jv_members(*a, 0)[i as int] == Self::jv_members(
                                    *b,
                                    0,
                                )[i as int]);
                            }
                        }
                        return false;
                    }
                    i += 1;
                }
                proof {
                    assert(Self::jv_members(*a, 0) =~= Self::jv_members(*b, 0));
                }
                true
            },
            _ => {
                proof {
                    assert(!(self.jv() == other.jv()));
                }
                false
            },
        }
    }
}

/// `jv_list` yields one model per element, in order.
pub proof fn lemma_jv_list(items: Vec<JsonValue>, i: int)
    requires
        0 <= i <= items@.len(),
    ensures
        JsonValue::jv_list(items, i).len() == items@.len() - i,
        forall|j: int|
            0 <= j < items@.len() - i ==> #[trigger] JsonValue::jv_list(items, i)[j] == items[i
                + j].jv(),
    decreases items@.len() - i,
{
    if i < items@.len() {
        lemma_jv_list(items, i + 1);
    }
}

/// `jv_members` yields one modelled pair per member, in order.
pub proof fn lemma_jv_members(fields: Vec<JsonMember>, i: int)
    requires
        0 <= i <= fields@.len(),
    ensures
        JsonValue::jv_members(fields, i).len() == fields@.len() - i,
        forall|j: int|
            0 <= j < fields@.len() - i ==> #[trigger] JsonValue::jv_members(fields, i)[j] == (
                fields[i + j].key@,
                fields[i + j].value.jv(),
            ),
    decreases fields@.len() - i,
{
    if i < fields@.len() {
        lemma_jv_members(fields, i + 1);
    }
}

} // verus!

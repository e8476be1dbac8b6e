use vstd::prelude::*;

verus! {

/// The mathematical model of a JSON value.
pub enum Json {
    Null,
    Bool(bool),
    Int(int),
    Real(Seq<char>),
    Str(Seq<char>),
    Array(Seq<Json>),
    Object(Seq<(Seq<char>, Json)>),
}

/// A JSON value as the rule and workflow logic reads it.
///
/// Integers are held exactly; a number with a fraction or an exponent is
/// held as its decimal text.
pub enum JsonValue {
    Null,
    Bool(bool),
    Int(i128),
    Real(String),
    Str(String),
    Array(Vec<JsonValue>),
    Object(Vec<(String, JsonValue)>),
}

pub open spec fn json_seq(s: Seq<JsonValue>) -> Seq<Json>
    decreases s,
{
    if s.len() == 0 {
        Seq::empty()
    } else {
        json_seq(s.subrange(0, s.len() - 1)).push(json_of(s[s.len() - 1]))
    }
}

pub open spec fn json_fields(s: Seq<(String, JsonValue)>) -> Seq<(Seq<char>, Json)>
    decreases s,
{
    if s.len() == 0 {
        Seq::empty()
    } else {
        json_fields(s.subrange(0, s.len() - 1)).push((s[s.len() - 1].0@, json_of(s[s.len() - 1].1)))
    }
}

pub open spec fn json_of(v: JsonValue) -> Json
    decreases v,
{
    match v {
        JsonValue::Null => Json::Null,
        JsonValue::Bool(b) => Json::Bool(b),
        JsonValue::Int(i) => Json::Int(i as int),
        JsonValue::Real(t) => Json::Real(t@),
        JsonValue::Str(s) => Json::Str(s@),
        JsonValue::Array(a) => Json::Array(json_seq(a@)),
        JsonValue::Object(o) => Json::Object(json_fields(o@)),
    }
}

impl View for JsonValue {
    type V = Json;

    open spec fn view(&self) -> Json {
        json_of(*self)
    }
}


pub proof fn lemma_json_seq(s: Seq<JsonValue>)
    ensures
        json_seq(s).len() == s.len(),
        forall|i: int| 0 <= i < s.len() ==> #[trigger] json_seq(s)[i] == json_of(s[i]),
    decreases s.len(),
{
    if s.len() > 0 {
        lemma_json_seq(s.subrange(0, s.len() - 1));
    }
}

pub proof fn lemma_json_fields(s: Seq<(String, JsonValue)>)
    ensures
        json_fields(s).len() == s.len(),
        forall|i: int|
            0 <= i < s.len() ==> #[trigger] json_fields(s)[i] == (s[i].0@, json_of(s[i].1)),
    decreases s.len(),
{
    if s.len() > 0 {
        lemma_json_fields(s.subrange(0, s.len() - 1));
    }
}

/// Equality of two JSON values as this model holds them: the same kind with the same
/// contents, arrays element by element and objects field by field in the order the fields
/// are listed. A number with a fraction or an exponent is compared by its text, so
/// `1.0` and `1.00`, or `0.0` and `-0.0`, differ; an integer never equals such a number.
pub fn json_eq(a: &JsonValue, b: &JsonValue) -> (r: bool)
    ensures
        r == (a@ == b@),
    decreases a,
{
    match (a, b) {
        (JsonValue::Null, JsonValue::Null) => true,
        (JsonValue::Bool(x), JsonValue::Bool(y)) => *x == *y,
        (JsonValue::Int(x), JsonValue::Int(y)) => *x == *y,
        (JsonValue::Real(x), JsonValue::Real(y)) => *x == *y,
        (JsonValue::Str(x), JsonValue::Str(y)) => *x == *y,
        (JsonValue::Array(x), JsonValue::Array(y)) => {
            proof {
                lemma_json_seq(x@);
                lemma_json_seq(y@);
            }
            if x.len() != y.len() {
                return false;
            }
            let mut i: usize = 0;
            while i < x.len()
                invariant
                    i <= x.len(),
                    x.len() == y.len(),
                    *a == JsonValue::Array(*x),
                    *b == JsonValue::Array(*y),
                    json_seq(x@).len() == x@.len(),
                    json_seq(y@).len() == y@.len(),
                    forall|k: int| 0 <= k < x@.len() ==> #[trigger] json_seq(x@)[k] == json_of(x@[k]),
                    forall|k: int| 0 <= k < y@.len() ==> #[trigger] json_seq(y@)[k] == json_of(y@[k]),
                    forall|k: int| 0 <= k < i ==> json_of(#[trigger] x@[k]) == json_of(y@[k]),
                decreases x.len() - i,
            {
                proof {
                    assert(decreases_to!(*a => (*a)->Array_0));
                    assert(decreases_to!(*x => x@));
                    assert(decreases_to!(x@ => x@[i as int]));
                }
                if !json_eq(&x[i], &y[i]) {
                    proof {
                        assert(json_seq(x@)[i as int] != json_seq(y@)[i as int]);
                    }
                    return false;
                }
                i += 1;
            }
            proof {
                assert(json_seq(x@) =~= json_seq(y@));
            }
            true
        },
        (JsonValue::Object(x), JsonValue::Object(y)) => {
            proof {
                lemma_json_fields(x@);
                lemma_json_fields(y@);
            }
            if x.len() != y.len() {
                return false;
            }
            let mut i: usize = 0;
            while i < x.len()
                invariant
                    i <= x.len(),
                    x.len() == y.len(),
                    *a == JsonValue::Object(*x),
                    *b == JsonValue::Object(*y),
                    json_fields(x@).len() == x@.len(),
                    json_fields(y@).len() == y@.len(),
                    forall|k: int| 0 <= k < x@.len() ==> #[trigger] json_fields(x@)[k] == (x@[k].0@, json_of(x@[k].1)),
                    forall|k: int| 0 <= k < y@.len() ==> #[trigger] json_fields(y@)[k] == (y@[k].0@, json_of(y@[k].1)),
                    forall|k: int| 0 <= k < i ==> json_fields(x@)[k] == #[trigger] json_fields(y@)[k],
                decreases x.len() - i,
            {
                proof {
                    assert(decreases_to!(*a => (*a)->Object_0));
                    assert(decreases_to!(*x => x@));
                    assert(decreases_to!(x@ => x@[i as int]));
                    assert(decreases_to!(x@[i as int] => x@[i as int].1));
                }
                if !(x[i].0 == y[i].0) || !json_eq(&x[i].1, &y[i].1) {
                    proof {
                        assert(json_fields(x@)[i as int] != json_fields(y@)[i as int]);
                    }
                    return false;
                }
                i += 1;
            }
            proof {
                assert(json_fields(x@) =~= json_fields(y@));
            }
            true
        },
        _ => false,
    }
}


/// A copy of `v`.
pub fn json_clone(v: &JsonValue) -> (r: JsonValue)
    ensures
        r@ == v@,
    decreases v,
{
    match v {
        JsonValue::Null => JsonValue::Null,
        JsonValue::Bool(b) => JsonValue::Bool(*b),
        JsonValue::Int(i) => JsonValue::Int(*i),
        JsonValue::Real(t) => JsonValue::Real(t.clone()),
        JsonValue::Str(t) => JsonValue::Str(t.clone()),
        JsonValue::Array(items) => {
            proof {
                lemma_json_seq(items@);
            }
            let mut out: Vec<JsonValue> = Vec::new();
            let mut i: usize = 0;
            while i < items.len()
                invariant
                    i <= items@.len(),
                    *v == JsonValue::Array(*items),
                    out@.len() == i,
                    forall|k: int| 0 <= k < i ==> json_of(#[trigger] out@[k]) == json_of(items@[k]),
                decreases items@.len() - i,
            {
                proof {
                    assert(decreases_to!(*v => (*v)->Array_0));
                    assert(decreases_to!(*items => items@));
                    assert(decreases_to!(items@ => items@[i as int]));
                }
                out.push(json_clone(&items[i]));
                i += 1;
            }
            proof {
                lemma_json_seq(out@);
                assert(json_seq(out@) =~= json_seq(items@));
            }
            JsonValue::Array(out)
        },
        JsonValue::Object(fields) => {
            proof {
                lemma_json_fields(fields@);
            }
            let mut out: Vec<(String, JsonValue)> = Vec::new();
            let mut i: usize = 0;
            while i < fields.len()
                invariant
                    i <= fields@.len(),
                    *v == JsonValue::Object(*fields),
                    out@.len() == i,
                    forall|k: int| 0 <= k < i ==> (#[trigger] out@[k]).0@ == fields@[k].0@
                        && json_of(out@[k].1) == json_of(fields@[k].1),
                decreases fields@.len() - i,
            {
                proof {
                    assert(decreases_to!(*v => (*v)->Object_0));
                    assert(decreases_to!(*fields => fields@));
                    assert(decreases_to!(fields@ => fields@[i as int]));
                    assert(decreases_to!(fields@[i as int] => fields@[i as int].1));
                }
                let value = json_clone(&fields[i].1);
                out.push((fields[i].0.clone(), value));
                i += 1;
            }
            proof {
                lemma_json_fields(out@);
                assert(json_fields(out@) =~= json_fields(fields@));
            }
            JsonValue::Object(out)
        },
    }
}

/// The first position, from `k` on, of the field named `key`, or -1.
pub open spec fn key_pos(f: Seq<(Seq<char>, Json)>, key: Seq<char>, k: int) -> int
    decreases f.len() - k,
{
    if k < 0 || k >= f.len() {
        -1
    } else if f[k].0 == key {
        k
    } else {
        key_pos(f, key, k + 1)
    }
}

pub proof fn lemma_key_pos(f: Seq<(Seq<char>, Json)>, key: Seq<char>, k: int)
    requires
        0 <= k,
    ensures
        -1 <= key_pos(f, key, k) < f.len(),
        key_pos(f, key, k) >= 0 ==> k <= key_pos(f, key, k) && f[key_pos(f, key, k)].0 == key,
        key_pos(f, key, k) >= 0 ==> forall|j: int| k <= j < key_pos(f, key, k) ==> #[trigger] f[j].0 != key,
        key_pos(f, key, k) < 0 ==> forall|j: int| k <= j < f.len() ==> #[trigger] f[j].0 != key,
    decreases f.len() - k,
{
    if k < f.len() && f[k].0 != key {
        lemma_key_pos(f, key, k + 1);
    }
}

/// `f` with the field `key` set to `v`: replaced where it is, added at the end otherwise.
pub open spec fn fields_set(f: Seq<(Seq<char>, Json)>, key: Seq<char>, v: Json) -> Seq<(Seq<char>, Json)> {
    let i = key_pos(f, key, 0);
    if i >= 0 {
        f.update(i, (key, v))
    } else {
        f.push((key, v))
    }
}

/// `cur` with each field of `inc` set in turn.
pub open spec fn fields_merged(cur: Seq<(Seq<char>, Json)>, inc: Seq<(Seq<char>, Json)>) -> Seq<(Seq<char>, Json)>
    decreases inc.len(),
{
    if inc.len() == 0 {
        cur
    } else {
        fields_set(fields_merged(cur, inc.drop_last()), inc.last().0, inc.last().1)
    }
}

/// The object `cur` with the fields of the object `inc` written over it; `cur` itself
/// when either is no object.
pub open spec fn merged(cur: Json, inc: Json) -> Json {
    match (cur, inc) {
        (Json::Object(c), Json::Object(i)) => Json::Object(fields_merged(c, i)),
        _ => cur,
    }
}

fn field_position(fields: &Vec<(String, JsonValue)>, key: &String) -> (r: Option<usize>)
    ensures
        match r {
            Some(i) => i as int == key_pos(json_fields(fields@), key@, 0) && i < fields@.len(),
            None => key_pos(json_fields(fields@), key@, 0) == -1,
        },
{
    proof {
        lemma_json_fields(fields@);
        lemma_key_pos(json_fields(fields@), key@, 0);
    }
    let ghost f = json_fields(fields@);
    let mut i: usize = 0;
    while i < fields.len()
        invariant
            i <= fields@.len(),
            f == json_fields(fields@),
            f.len() == fields@.len(),
            forall|k: int| 0 <= k < fields@.len() ==> #[trigger] f[k] == (fields@[k].0@, json_of(fields@[k].1)),
            key_pos(f, key@, 0) == key_pos(f, key@, i as int),
        decreases fields@.len() - i,
    {
        if fields[i].0 == *key {
            return Some(i);
        }
        i += 1;
    }
    None
}

/// Writes the fields of the object `inc` over the object `cur`.
pub fn merge_objects(cur: JsonValue, inc: &JsonValue) -> (r: JsonValue)
    ensures
        r@ == merged(cur@, inc@),
{
    match cur {
        JsonValue::Object(mut fields) => match inc {
            JsonValue::Object(incoming) => {
                proof {
                    lemma_json_fields(incoming@);
                }
                let ghost c = json_fields(fields@);
                let mut i: usize = 0;
                while i < incoming.len()
                    invariant
                        i <= incoming@.len(),
                        *inc == JsonValue::Object(*incoming),
                        json_fields(incoming@).len() == incoming@.len(),
                        forall|k: int| 0 <= k < incoming@.len() ==> #[trigger] json_fields(incoming@)[k]
                            == (incoming@[k].0@, json_of(incoming@[k].1)),
                        json_fields(fields@) == fields_merged(c, json_fields(incoming@).subrange(0, i as int)),
                    decreases incoming@.len() - i,
                {
                    let ghost before = fields@;
                    let key = incoming[i].0.clone();
                    let value = json_clone(&incoming[i].1);
                    let ghost entry = (key@, json_of(value));
                    let pos = field_position(&fields, &key);
                    proof {
                        lemma_json_fields(before);
                        let inc_f = json_fields(incoming@);
                        let pre = inc_f.subrange(0, i as int + 1);
                        assert(pre.drop_last() =~= inc_f.subrange(0, i as int));
                        assert(pre.last() == entry);
                    }
                    match pos {
                        Some(p) => {
                            fields.set(p, (key, value));
                            proof {
                                lemma_json_fields(fields@);
                                assert(json_fields(fields@) =~= json_fields(before).update(p as int, entry));
                            }
                        },
                        None => {
                            fields.push((key, value));
                            proof {
                                lemma_json_fields(fields@);
                                assert(json_fields(fields@) =~= json_fields(before).push(entry));
                            }
                        },
                    }
                    i += 1;
                }
                proof {
                    assert(json_fields(incoming@).subrange(0, incoming@.len() as int) =~= json_fields(incoming@));
                }
                JsonValue::Object(fields)
            },
            _ => JsonValue::Object(fields),
        },
        other => other,
    }
}

} // verus!

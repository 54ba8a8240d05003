//! A JSON document held as plain values.
//!
//! Numbers that fit a 64-bit integer are carried in `Int`; any other
//! JSON number is carried as its decimal text in `Frac`, which keeps the
//! crate free of floating point while preserving the digits exactly.
//! Objects keep their members in order as a vector of pairs.

use vstd::prelude::*;

verus! {

/// One JSON value.
#[derive(Debug, PartialEq)]
pub enum JsonValue {
    Null,
    Bool(bool),
    Int(i64),
    Frac(String),
    Str(String),
    Arr(Vec<JsonValue>),
    Obj(Vec<(String, JsonValue)>),
}

/// The first member of `fields` named `key`, if any.
pub open spec fn spec_field(fields: Seq<(String, JsonValue)>, key: Seq<char>) -> Option<JsonValue>
    decreases fields.len(),
{
    if fields.len() == 0 {
        None
    } else if fields[0].0@ == key {
        Some(fields[0].1)
    } else {
        spec_field(fields.drop_first(), key)
    }
}

/// The member of object `v` named `key`, if `v` is an object holding one.
pub open spec fn spec_get(v: JsonValue, key: Seq<char>) -> Option<JsonValue> {
    match v {
        JsonValue::Obj(fields) => spec_field(fields@, key),
        _ => None,
    }
}

/// The characters of `v`, if `v` is a string.
pub open spec fn spec_str(v: JsonValue) -> Option<Seq<char>> {
    match v {
        JsonValue::Str(s) => Some(s@),
        _ => None,
    }
}

/// The elements of `v`, if `v` is an array.
pub open spec fn spec_arr(v: JsonValue) -> Option<Seq<JsonValue>> {
    match v {
        JsonValue::Arr(a) => Some(a@),
        _ => None,
    }
}

/// The integer carried by `v`, if `v` is an integer number.
pub open spec fn spec_int(v: JsonValue) -> Option<i64> {
    match v {
        JsonValue::Int(i) => Some(i),
        _ => None,
    }
}

/// The decimal text carried by `v`, if `v` is a non-integer number.
pub open spec fn spec_frac(v: JsonValue) -> Option<Seq<char>> {
    match v {
        JsonValue::Frac(s) => Some(s@),
        _ => None,
    }
}

/// The member `key` of `v`, if it is a string, as characters.
pub open spec fn spec_get_str(v: JsonValue, key: Seq<char>) -> Option<Seq<char>> {
    match spec_get(v, key) {
        Some(w) => spec_str(w),
        None => None,
    }
}

/// Keys of the first `i` members of `fields` all differ from `key`, so
/// the lookup continues in the rest.
proof fn lemma_spec_field_skip(fields: Seq<(String, JsonValue)>, key: Seq<char>, i: int)
    requires
        0 <= i <= fields.len(),
        forall|j: int| 0 <= j < i ==> #[trigger] fields[j].0@ != key,
    ensures
        spec_field(fields, key) == spec_field(fields.skip(i), key),
    decreases i,
{
    if i == 0 {
        assert(fields.skip(0) =~= fields);
    } else {
        assert(fields.len() > 0);
        assert(fields[0].0@ != key);
        assert forall|j: int| 0 <= j < i - 1 implies #[trigger] fields.drop_first()[j].0@
            != key by {
            assert(fields.drop_first()[j] == fields[j + 1]);
        }
        lemma_spec_field_skip(fields.drop_first(), key, i - 1);
        assert(fields.drop_first().skip(i - 1) =~= fields.skip(i));
    }
}

impl JsonValue {
    /// Looks up a member of this value, when it is an object.
    pub fn get<'a>(&'a self, key: &str) -> (r: Option<&'a JsonValue>)
        ensures
            match r {
                Some(w) => spec_get(*self, key@) == Some(*w),
                None => spec_get(*self, key@) is None,
            },
    {
        match self {
            JsonValue::Obj(fields) => {
                let n = fields.len();
                let mut i: usize = 0;
                while i < n
                    invariant
                        i <= n,
                        n == fields@.len(),
                        spec_get(*self, key@) == spec_field(fields@, key@),
                        forall|j: int| 0 <= j < i ==> #[trigger] fields@[j].0@ != key@,
                    decreases n - i,
                {
                    if crate::text::str_eq(fields[i].0.as_str(), key) {
                        proof {
                            lemma_spec_field_skip(fields@, key@, i as int);
                            assert(fields@.skip(i as int)[0] == fields@[i as int]);
                            assert(spec_field(fields@.skip(i as int), key@) == Some(
                                fields@[i as int].1,
                            ));
                        }
                        return Some(&fields[i].1);
                    }
                    i = i + 1;
                }
                proof {
                    lemma_spec_field_skip(fields@, key@, n as int);
                    assert(fields@.skip(n as int) =~= Seq::<(String, JsonValue)>::empty());
                    assert(spec_get(*self, key@) == spec_field(fields@, key@));
                }
                None
            },
            _ => None,
        }
    }

    /// This value as a borrowed string, when it is a string.
    pub fn as_str<'a>(&'a self) -> (r: Option<&'a str>)
        ensures
            match r {
                Some(s) => spec_str(*self) == Some(s@),
                None => spec_str(*self) is None,
            },
    {
        match self {
            JsonValue::Str(s) => Some(s.as_str()),
            _ => None,
        }
    }

    /// The elements of this value, when it is an array.
    pub fn as_arr<'a>(&'a self) -> (r: Option<&'a Vec<JsonValue>>)
        ensures
            match r {
                Some(a) => spec_arr(*self) == Some(a@),
                None => spec_arr(*self) is None,
            },
    {
        match self {
            JsonValue::Arr(a) => Some(a),
            _ => None,
        }
    }

    /// The integer carried by this value, when it is an integer number.
    pub fn as_int(&self) -> (r: Option<i64>)
        ensures
            r == spec_int(*self),
    {
        match self {
            JsonValue::Int(i) => Some(*i),
            _ => None,
        }
    }

    /// The decimal text of this value, when it is a non-integer number.
    pub fn as_frac<'a>(&'a self) -> (r: Option<&'a str>)
        ensures
            match r {
                Some(s) => spec_frac(*self) == Some(s@),
                None => spec_frac(*self) is None,
            },
    {
        match self {
            JsonValue::Frac(s) => Some(s.as_str()),
            _ => None,
        }
    }

    /// The member `key` of this value, when it is a string.
    pub fn get_str<'a>(&'a self, key: &str) -> (r: Option<&'a str>)
        ensures
            match r {
                Some(s) => spec_get_str(*self, key@) == Some(s@),
                None => spec_get_str(*self, key@) is None,
            },
    {
        match self.get(key) {
            Some(w) => w.as_str(),
            None => None,
        }
    }

    /// Removes and returns the member named `key`, consuming this value.
    pub fn take_field(self, key: &str) -> (r: Option<JsonValue>)
        ensures
            match r {
                Some(w) => spec_get(self, key@) == Some(w),
                None => spec_get(self, key@) is None,
            },
    {
        match self {
            JsonValue::Obj(mut fields) => {
                let ghost all: Seq<(String, JsonValue)> = fields@;
                let n = fields.len();
                let mut i: usize = 0;
                while i < n
                    invariant
                        i <= n,
                        n == fields@.len(),
                        fields@ == all,
                        spec_get(self, key@) == spec_field(all, key@),
                        forall|j: int| 0 <= j < i ==> #[trigger] fields@[j].0@ != key@,
                    decreases n - i,
                {
                    if crate::text::str_eq(fields[i].0.as_str(), key) {
                        proof {
                            lemma_spec_field_skip(all, key@, i as int);
                            assert(all.skip(i as int)[0] == all[i as int]);
                            assert(spec_field(all, key@) == Some(all[i as int].1));
                        }
                        let pair = fields.remove(i);
                        return Some(pair.1);
                    }
                    i = i + 1;
                }
                proof {
                    lemma_spec_field_skip(all, key@, n as int);
                    assert(all.skip(n as int) =~= Seq::<(String, JsonValue)>::empty());
                    assert(spec_get(self, key@) == spec_field(all, key@));
                }
                None
            },
            _ => None,
        }
    }
}

/// The member names of `v`, in order, when it is an object.
pub open spec fn spec_obj_keys(v: JsonValue) -> Option<Seq<Seq<char>>> {
    match v {
        JsonValue::Obj(f) => Some(Seq::new(f@.len(), |i: int| f@[i].0@)),
        _ => None,
    }
}

/// An object of one member.
pub fn obj1(k1: &str, v1: JsonValue) -> (r: JsonValue)
    ensures
        spec_obj_keys(r) == Some(seq![k1@]),
        spec_get(r, k1@) == Some(v1),
{
    let mut f: Vec<(String, JsonValue)> = Vec::new();
    let ghost gv1: JsonValue = v1;
    f.push((String::from_str(k1), v1));
    proof {
        assert(spec_field(f@, k1@) == Some(gv1));
        assert(spec_obj_keys(JsonValue::Obj(f)) matches Some(ks) && ks =~= seq![k1@]);
    }
    JsonValue::Obj(f)
}

/// An object of two members with distinct names, in order.
pub fn obj2(k1: &str, v1: JsonValue, k2: &str, v2: JsonValue) -> (r: JsonValue)
    requires
        k1@ != k2@,
    ensures
        spec_obj_keys(r) == Some(seq![k1@, k2@]),
        spec_get(r, k1@) == Some(v1),
        spec_get(r, k2@) == Some(v2),
{
    let mut f: Vec<(String, JsonValue)> = Vec::new();
    let ghost gv1: JsonValue = v1;
    let ghost gv2: JsonValue = v2;
    f.push((String::from_str(k1), v1));
    f.push((String::from_str(k2), v2));
    proof {
        assert(spec_field(f@, k1@) == Some(gv1));
        assert(f@.drop_first() =~= seq![f@[1]]);
        assert(spec_field(f@, k2@) == spec_field(f@.drop_first(), k2@));
        assert(spec_field(f@.drop_first(), k2@) == Some(gv2));
        assert(spec_obj_keys(JsonValue::Obj(f)) matches Some(ks) && ks =~= seq![k1@, k2@]);
    }
    JsonValue::Obj(f)
}

/// An object of three members with pairwise distinct names, in order.
pub fn obj3(k1: &str, v1: JsonValue, k2: &str, v2: JsonValue, k3: &str, v3: JsonValue) -> (r:
    JsonValue)
    requires
        k1@ != k2@ && k1@ != k3@ && k2@ != k3@,
    ensures
        spec_obj_keys(r) == Some(seq![k1@, k2@, k3@]),
        spec_get(r, k1@) == Some(v1),
        spec_get(r, k2@) == Some(v2),
        spec_get(r, k3@) == Some(v3),
{
    let mut f: Vec<(String, JsonValue)> = Vec::new();
    let ghost gv1: JsonValue = v1;
    let ghost gv2: JsonValue = v2;
    let ghost gv3: JsonValue = v3;
    f.push((String::from_str(k1), v1));
    f.push((String::from_str(k2), v2));
    f.push((String::from_str(k3), v3));
    proof {
        let s0 = f@;
        let s1 = s0.drop_first();
        let s2 = s1.drop_first();
        assert(s1 =~= seq![s0[1], s0[2]]);
        assert(s2 =~= seq![s0[2]]);
        assert(spec_field(s0, k1@) == Some(gv1));
        assert(spec_field(s0, k2@) == spec_field(s1, k2@));
        assert(spec_field(s1, k2@) == Some(gv2));
        assert(spec_field(s0, k3@) == spec_field(s1, k3@));
        assert(spec_field(s1, k3@) == spec_field(s2, k3@));
        assert(spec_field(s2, k3@) == Some(gv3));
        assert(spec_obj_keys(JsonValue::Obj(f)) matches Some(ks) && ks =~= seq![k1@, k2@, k3@]);
    }
    JsonValue::Obj(f)
}

/// An object of seven members with pairwise distinct names, in order.
pub fn obj7(
    k1: &str,
    v1: JsonValue,
    k2: &str,
    v2: JsonValue,
    k3: &str,
    v3: JsonValue,
    k4: &str,
    v4: JsonValue,
    k5: &str,
    v5: JsonValue,
    k6: &str,
    v6: JsonValue,
    k7: &str,
    v7: JsonValue,
) -> (r: JsonValue)
    requires
        k1@ != k2@ && k1@ != k3@ && k1@ != k4@ && k1@ != k5@ && k1@ != k6@ && k1@ != k7@,
        k2@ != k3@ && k2@ != k4@ && k2@ != k5@ && k2@ != k6@ && k2@ != k7@,
        k3@ != k4@ && k3@ != k5@ && k3@ != k6@ && k3@ != k7@,
        k4@ != k5@ && k4@ != k6@ && k4@ != k7@,
        k5@ != k6@ && k5@ != k7@,
        k6@ != k7@,
    ensures
        spec_obj_keys(r) == Some(seq![k1@, k2@, k3@, k4@, k5@, k6@, k7@]),
        spec_get(r, k1@) == Some(v1),
        spec_get(r, k2@) == Some(v2),
        spec_get(r, k3@) == Some(v3),
        spec_get(r, k4@) == Some(v4),
        spec_get(r, k5@) == Some(v5),
        spec_get(r, k6@) == Some(v6),
        spec_get(r, k7@) == Some(v7),
{
    let mut f: Vec<(String, JsonValue)> = Vec::new();
    let ghost gv1: JsonValue = v1;
    let ghost gv2: JsonValue = v2;
    let ghost gv3: JsonValue = v3;
    let ghost gv4: JsonValue = v4;
    let ghost gv5: JsonValue = v5;
    let ghost gv6: JsonValue = v6;
    let ghost gv7: JsonValue = v7;
    f.push((String::from_str(k1), v1));
    f.push((String::from_str(k2), v2));
    f.push((String::from_str(k3), v3));
    f.push((String::from_str(k4), v4));
    f.push((String::from_str(k5), v5));
    f.push((String::from_str(k6), v6));
    f.push((String::from_str(k7), v7));
    proof {
        let s0 = f@;
        let s1 = s0.drop_first();
        let s2 = s1.drop_first();
        let s3 = s2.drop_first();
        let s4 = s3.drop_first();
        let s5 = s4.drop_first();
        let s6 = s5.drop_first();
        assert(s1 =~= seq![s0[1], s0[2], s0[3], s0[4], s0[5], s0[6]]);
        assert(s2 =~= seq![s0[2], s0[3], s0[4], s0[5], s0[6]]);
        assert(s3 =~= seq![s0[3], s0[4], s0[5], s0[6]]);
        assert(s4 =~= seq![s0[4], s0[5], s0[6]]);
        assert(s5 =~= seq![s0[5], s0[6]]);
        assert(s6 =~= seq![s0[6]]);
        assert(spec_field(s0, k1@) == Some(gv1));
        assert(spec_field(s0, k2@) == spec_field(s1, k2@));
        assert(spec_field(s1, k2@) == Some(gv2));
        assert(spec_field(s0, k3@) == spec_field(s1, k3@));
        assert(spec_field(s1, k3@) == spec_field(s2, k3@));
        assert(spec_field(s2, k3@) == Some(gv3));
        assert(spec_field(s0, k4@) == spec_field(s1, k4@));
        assert(spec_field(s1, k4@) == spec_field(s2, k4@));
        assert(spec_field(s2, k4@) == spec_field(s3, k4@));
        assert(spec_field(s3, k4@) == Some(gv4));
        assert(spec_field(s0, k5@) == spec_field(s1, k5@));
        assert(spec_field(s1, k5@) == spec_field(s2, k5@));
        assert(spec_field(s2, k5@) == spec_field(s3, k5@));
        assert(spec_field(s3, k5@) == spec_field(s4, k5@));
        assert(spec_field(s4, k5@) == Some(gv5));
        assert(spec_field(s0, k6@) == spec_field(s1, k6@));
        assert(spec_field(s1, k6@) == spec_field(s2, k6@));
        assert(spec_field(s2, k6@) == spec_field(s3, k6@));
        assert(spec_field(s3, k6@) == spec_field(s4, k6@));
        assert(spec_field(s4, k6@) == spec_field(s5, k6@));
        assert(spec_field(s5, k6@) == Some(gv6));
        assert(spec_field(s0, k7@) == spec_field(s1, k7@));
        assert(spec_field(s1, k7@) == spec_field(s2, k7@));
        assert(spec_field(s2, k7@) == spec_field(s3, k7@));
        assert(spec_field(s3, k7@) == spec_field(s4, k7@));
        assert(spec_field(s4, k7@) == spec_field(s5, k7@));
        assert(spec_field(s5, k7@) == spec_field(s6, k7@));
        assert(spec_field(s6, k7@) == Some(gv7));
        assert(spec_obj_keys(JsonValue::Obj(f)) matches Some(ks) && ks =~= seq![
            k1@,
            k2@,
            k3@,
            k4@,
            k5@,
            k6@,
            k7@,
        ]);
    }
    JsonValue::Obj(f)
}

/// An object of five members with pairwise distinct names, in order.
pub fn obj5(
    k1: &str,
    v1: JsonValue,
    k2: &str,
    v2: JsonValue,
    k3: &str,
    v3: JsonValue,
    k4: &str,
    v4: JsonValue,
    k5: &str,
    v5: JsonValue,
) -> (r: JsonValue)
    requires
        k1@ != k2@ && k1@ != k3@ && k1@ != k4@ && k1@ != k5@,
        k2@ != k3@ && k2@ != k4@ && k2@ != k5@,
        k3@ != k4@ && k3@ != k5@,
        k4@ != k5@,
    ensures
        spec_obj_keys(r) == Some(seq![k1@, k2@, k3@, k4@, k5@]),
        spec_get(r, k1@) == Some(v1),
        spec_get(r, k2@) == Some(v2),
        spec_get(r, k3@) == Some(v3),
        spec_get(r, k4@) == Some(v4),
        spec_get(r, k5@) == Some(v5),
{
    let mut f: Vec<(String, JsonValue)> = Vec::new();
    let ghost gv1: JsonValue = v1;
    let ghost gv2: JsonValue = v2;
    let ghost gv3: JsonValue = v3;
    let ghost gv4: JsonValue = v4;
    let ghost gv5: JsonValue = v5;
    f.push((String::from_str(k1), v1));
    f.push((String::from_str(k2), v2));
    f.push((String::from_str(k3), v3));
    f.push((String::from_str(k4), v4));
    f.push((String::from_str(k5), v5));
    proof {
        let s0 = f@;
        let s1 = s0.drop_first();
        let s2 = s1.drop_first();
        let s3 = s2.drop_first();
        let s4 = s3.drop_first();
        assert(s1 =~= seq![s0[1], s0[2], s0[3], s0[4]]);
        assert(s2 =~= seq![s0[2], s0[3], s0[4]]);
        assert(s3 =~= seq![s0[3], s0[4]]);
        assert(s4 =~= seq![s0[4]]);
        assert(spec_field(s0, k1@) == Some(gv1));
        assert(spec_field(s0, k2@) == spec_field(s1, k2@));
        assert(spec_field(s1, k2@) == Some(gv2));
        assert(spec_field(s0, k3@) == spec_field(s1, k3@));
        assert(spec_field(s1, k3@) == spec_field(s2, k3@));
        assert(spec_field(s2, k3@) == Some(gv3));
        assert(spec_field(s0, k4@) == spec_field(s1, k4@));
        assert(spec_field(s1, k4@) == spec_field(s2, k4@));
        assert(spec_field(s2, k4@) == spec_field(s3, k4@));
        assert(spec_field(s3, k4@) == Some(gv4));
        assert(spec_field(s0, k5@) == spec_field(s1, k5@));
        assert(spec_field(s1, k5@) == spec_field(s2, k5@));
        assert(spec_field(s2, k5@) == spec_field(s3, k5@));
        assert(spec_field(s3, k5@) == spec_field(s4, k5@));
        assert(spec_field(s4, k5@) == Some(gv5));
        assert(spec_obj_keys(JsonValue::Obj(f)) matches Some(ks) && ks =~= seq![
            k1@,
            k2@,
            k3@,
            k4@,
            k5@,
        ]);
    }
    JsonValue::Obj(f)
}

} // verus!

//! The dynamically-typed result domain of statement computation.
//!
//! The executor treats values as opaque except for `Value::Nil`, the unit of
//! "no observable result". The `USE` statement additionally writes the
//! selected namespace and database into the session object held in the
//! context, which is why objects support a `put` operation here.

use vstd::prelude::*;
use vstd::string::*;

verus! {

broadcast use vstd::std_specs::vec::group_vec_axioms, vstd::seq::group_seq_axioms;

/// A computed value: the result domain of statements and expressions.
#[derive(Debug, PartialEq, Eq)]
pub enum Value {
    /// No observable result.
    Nil,
    /// The boolean true.
    True,
    /// The boolean false.
    False,
    /// A 64-bit integer.
    Int(i64),
    /// A string.
    Strand(String),
    /// A record pointer `tb:id`.
    Thing { tb: String, id: String },
    /// An ordered list of values.
    Array(Vec<Value>),
    /// An ordered list of key/value fields.
    Object(Vec<(String, Value)>),
}

/// The mathematical shape of a [`Value`].
#[verifier::ext_equal]
pub enum SpecValue {
    Nil,
    True,
    False,
    Int(i64),
    Strand(Seq<char>),
    Thing { tb: Seq<char>, id: Seq<char> },
    Array(Seq<SpecValue>),
    Object(Seq<(Seq<char>, SpecValue)>),
}

/// The element-wise view of an array's items.
pub open spec fn arr_view(items: Seq<Value>) -> Seq<SpecValue>
    decreases items,
{
    Seq::new(
        items.len(),
        |i: int|
            if 0 <= i < items.len() {
                items[i].deep_view()
            } else {
                SpecValue::Nil
            },
    )
}

/// The field-wise view of an object's fields.
pub open spec fn obj_view(fields: Seq<(String, Value)>) -> Seq<(Seq<char>, SpecValue)>
    decreases fields,
{
    Seq::new(
        fields.len(),
        |i: int|
            if 0 <= i < fields.len() {
                (fields[i].0@, fields[i].1.deep_view())
            } else {
                (Seq::empty(), SpecValue::Nil)
            },
    )
}

impl DeepView for Value {
    type V = SpecValue;

    open spec fn deep_view(&self) -> SpecValue
        decreases self,
    {
        match self {
            Value::Nil => SpecValue::Nil,
            Value::True => SpecValue::True,
            Value::False => SpecValue::False,
            Value::Int(i) => SpecValue::Int(*i),
            Value::Strand(s) => SpecValue::Strand(s@),
            Value::Thing { tb, id } => SpecValue::Thing { tb: tb@, id: id@ },
            Value::Array(items) => SpecValue::Array(arr_view(items@)),
            Value::Object(fields) => SpecValue::Object(obj_view(fields@)),
        }
    }
}

/// What `put` does to an object's field list: replaces the first field named
/// `key`, or appends a new field when none is named so.
pub open spec fn spec_put_fields(
    fields: Seq<(Seq<char>, SpecValue)>,
    key: Seq<char>,
    v: SpecValue,
) -> Seq<(Seq<char>, SpecValue)>
    decreases fields.len(),
{
    if fields.len() == 0 {
        seq![(key, v)]
    } else if fields[0].0 == key {
        seq![(key, v)] + fields.skip(1)
    } else {
        seq![fields[0]] + spec_put_fields(fields.skip(1), key, v)
    }
}

/// What [`Value::as_string`] returns for each shape of value.
pub open spec fn spec_as_string(v: SpecValue) -> Seq<char> {
    match v {
        SpecValue::Nil => Seq::empty(),
        SpecValue::True => "true"@,
        SpecValue::False => "false"@,
        SpecValue::Int(i) => crate::strutil::spec_int_str(i as int),
        SpecValue::Strand(s) => s,
        SpecValue::Thing { tb, id } => tb + ":"@ + id,
        SpecValue::Array(_) => Seq::empty(),
        SpecValue::Object(_) => Seq::empty(),
    }
}

/// What [`Value::put`] produces: objects gain or replace the field, any other
/// value is first replaced by an empty object.
pub open spec fn spec_put(val: SpecValue, key: Seq<char>, v: SpecValue) -> SpecValue {
    match val {
        SpecValue::Object(fields) => SpecValue::Object(spec_put_fields(fields, key, v)),
        _ => SpecValue::Object(seq![(key, v)]),
    }
}

impl Value {
    /// A structural copy of the value, with the same mathematical value.
    #[verifier::loop_isolation(false)]
    pub fn dup(&self) -> (r: Value)
        ensures
            r.deep_view() == self.deep_view(),
        decreases self,
    {
        match self {
            Value::Nil => Value::Nil,
            Value::True => Value::True,
            Value::False => Value::False,
            Value::Int(i) => Value::Int(*i),
            Value::Strand(s) => Value::Strand(s.clone()),
            Value::Thing { tb, id } => Value::Thing { tb: tb.clone(), id: id.clone() },
            Value::Array(items) => {
                let mut out: Vec<Value> = Vec::new();
                let mut i: usize = 0;
                while i < items.len()
                    invariant
                        i <= items.len(),
                        out.len() == i,
                        forall|j: int| 0 <= j < i ==> out@[j].deep_view() == items@[j].deep_view(),
                    decreases items.len() - i,
                {
                    out.push(items[i].dup());
                    i = i + 1;
                }
                let r = Value::Array(out);
                assert(arr_view(out@) =~= arr_view(items@));
                r
            },
            Value::Object(fields) => {
                let mut out: Vec<(String, Value)> = Vec::new();
                let mut i: usize = 0;
                while i < fields.len()
                    invariant
                        i <= fields.len(),
                        out.len() == i,
                        forall|j: int| 0 <= j < i ==> out@[j].0@ == fields@[j].0@
                            && out@[j].1.deep_view() == fields@[j].1.deep_view(),
                    decreases fields.len() - i,
                {
                    let key = fields[i].0.clone();
                    let v = fields[i].1.dup();
                    out.push((key, v));
                    i = i + 1;
                }
                let r = Value::Object(out);
                assert(obj_view(out@) =~= obj_view(fields@));
                r
            },
        }
    }

    /// The value of `put` as a fresh value, leaving `self` untouched.
    #[verifier::loop_isolation(false)]
    pub fn with_field(&self, key: &str, v: Value) -> (r: Value)
        ensures
            r.deep_view() == spec_put(self.deep_view(), key@, v.deep_view()),
    {
        let key_s = String::from_str(key);
        match self {
            Value::Object(fields) => {
                let n = fields.len();
                let mut out: Vec<(String, Value)> = Vec::new();
                let mut i: usize = 0;
                while i < n && !(fields[i].0 == key_s)
                    invariant
                        i <= n,
                        n == fields.len(),
                        key_s@ == key@,
                        out.len() == i,
                        forall|j: int| 0 <= j < i ==> fields@[j].0@ != key@,
                        forall|j: int| 0 <= j < i ==> out@[j].0@ == fields@[j].0@
                            && out@[j].1.deep_view() == fields@[j].1.deep_view(),
                    decreases n - i,
                {
                    let ks = fields[i].0.clone();
                    let vs = fields[i].1.dup();
                    out.push((ks, vs));
                    i = i + 1;
                }
                if i < n {
                    let ghost hit = i as int;
                    out.push((key_s, v));
                    let mut j: usize = i + 1;
                    while j < n
                        invariant
                            hit + 1 <= j <= n,
                            n == fields.len(),
                            out.len() == j,
                            out@[hit].0@ == key@,
                            out@[hit].1.deep_view() == v.deep_view(),
                            forall|k: int| 0 <= k < hit ==> out@[k].0@ == fields@[k].0@
                                && out@[k].1.deep_view() == fields@[k].1.deep_view(),
                            forall|k: int| hit < k < j ==> out@[k].0@ == fields@[k].0@
                                && out@[k].1.deep_view() == fields@[k].1.deep_view(),
                        decreases n - j,
                    {
                        let ks = fields[j].0.clone();
                        let vs = fields[j].1.dup();
                        out.push((ks, vs));
                        j = j + 1;
                    }
                    proof {
                        lemma_put_fields_hit(obj_view(fields@), key@, v.deep_view(), hit);
                        assert(obj_view(out@) =~= obj_view(fields@).update(hit, (key@, v.deep_view())));
                    }
                    Value::Object(out)
                } else {
                    out.push((key_s, v));
                    proof {
                        lemma_put_fields_miss(obj_view(fields@), key@, v.deep_view());
                        assert(obj_view(out@) =~= obj_view(fields@) + seq![(key@, v.deep_view())]);
                    }
                    Value::Object(out)
                }
            },
            _ => {
                let mut fields: Vec<(String, Value)> = Vec::new();
                fields.push((key_s, v));
                let r = Value::Object(fields);
                assert(obj_view(fields@) =~= seq![(key@, v.deep_view())]);
                r
            },
        }
    }

    /// The textual coercion of the value: strings are themselves, booleans
    /// and integers render as text, a record pointer renders as `tb:id`,
    /// and everything else renders empty.
    pub fn as_string(&self) -> (r: String)
        ensures
            r@ == spec_as_string(self.deep_view()),
    {
        match self {
            Value::Nil => String::new(),
            Value::True => String::from_str("true"),
            Value::False => String::from_str("false"),
            Value::Int(i) => crate::strutil::int_to_string(*i),
            Value::Strand(s) => s.clone(),
            Value::Thing { tb, id } => {
                let mut out = tb.clone();
                out.append(":");
                out.append(id.as_str());
                assert(out@ =~= tb@ + ":"@ + id@);
                out
            },
            Value::Array(_) => String::new(),
            Value::Object(_) => String::new(),
        }
    }

    /// Writes `v` under `key`. An object is updated in place; any other value
    /// becomes a fresh object holding only this field.
    pub fn put(&mut self, key: &str, v: Value)
        ensures
            final(self).deep_view() == spec_put(old(self).deep_view(), key@, v.deep_view()),
    {
        let r = self.with_field(key, v);
        *self = r;
    }
}

/// `spec_put_fields` on a list whose first `i` keys differ from `key` and
/// whose `i`-th key equals `key` replaces exactly the `i`-th field.
proof fn lemma_put_fields_hit(
    fields: Seq<(Seq<char>, SpecValue)>,
    key: Seq<char>,
    v: SpecValue,
    i: int,
)
    requires
        0 <= i < fields.len(),
        fields[i].0 == key,
        forall|j: int| 0 <= j < i ==> fields[j].0 != key,
    ensures
        spec_put_fields(fields, key, v) =~= fields.update(i, (key, v)),
    decreases i,
{
    if i == 0 {
        assert(spec_put_fields(fields, key, v) =~= seq![(key, v)] + fields.skip(1));
        assert(seq![(key, v)] + fields.skip(1) =~= fields.update(0, (key, v)));
    } else {
        assert(fields[0].0 != key);
        lemma_put_fields_hit(fields.skip(1), key, v, i - 1);
        assert(fields.skip(1).update(i - 1, (key, v)) =~= fields.update(i, (key, v)).skip(1));
        assert(spec_put_fields(fields, key, v) =~= fields.update(i, (key, v)));
    }
}

/// `spec_put_fields` on a list with no field named `key` appends the field.
proof fn lemma_put_fields_miss(fields: Seq<(Seq<char>, SpecValue)>, key: Seq<char>, v: SpecValue)
    requires
        forall|j: int| 0 <= j < fields.len() ==> fields[j].0 != key,
    ensures
        spec_put_fields(fields, key, v) =~= fields + seq![(key, v)],
    decreases fields.len(),
{
    if fields.len() == 0 {
    } else {
        lemma_put_fields_miss(fields.skip(1), key, v);
        assert(spec_put_fields(fields, key, v) =~= seq![fields[0]] + (fields.skip(1) + seq![(key, v)]));
        assert(seq![fields[0]] + (fields.skip(1) + seq![(key, v)]) =~= fields + seq![(key, v)]);
    }
}

} // verus!

//! The in-memory representation of parsed GBLN data.

use vstd::prelude::*;
use crate::numtext::is_float_text;
use crate::text::seq_lt;

verus! {

/// Mathematical model of a value tree: integers as unbounded integers, text
/// as character sequences, objects as sequences of key/value pairs.
pub ghost enum SpecValue {
    I8(int),
    I16(int),
    I32(int),
    I64(int),
    U8(int),
    U16(int),
    U32(int),
    U64(int),
    F32(Seq<char>),
    F64(Seq<char>),
    Str(Seq<char>),
    Bool(bool),
    Null,
    Object(Seq<(Seq<char>, SpecValue)>),
    Array(Seq<SpecValue>),
}

/// A GBLN value.
///
/// Floating-point values carry the literal text of the number, exactly as it
/// stood in the source (a float literal in the sense of
/// [`crate::numtext::is_float_text`]); the text is what equality compares
/// and what serialization writes back. An object holds its fields as a
/// vector of key/value pairs; the parser keeps the pairs sorted by key and
/// free of duplicates, and the serializer writes fields in ascending key
/// order whatever order they are stored in.
#[derive(Debug)]
pub enum Value {
    I8(i8),
    I16(i16),
    I32(i32),
    I64(i64),
    U8(u8),
    U16(u16),
    U32(u32),
    U64(u64),
    F32(String),
    F64(String),
    Str(String),
    Bool(bool),
    Null,
    Object(Vec<(String, Value)>),
    Array(Vec<Value>),
}

/// The model of a value (the body of [`Value`]'s view).
pub open spec fn sv(v: Value) -> SpecValue
    decreases v, 1int,
{
    match v {
        Value::I8(n) => SpecValue::I8(n as int),
        Value::I16(n) => SpecValue::I16(n as int),
        Value::I32(n) => SpecValue::I32(n as int),
        Value::I64(n) => SpecValue::I64(n as int),
        Value::U8(n) => SpecValue::U8(n as int),
        Value::U16(n) => SpecValue::U16(n as int),
        Value::U32(n) => SpecValue::U32(n as int),
        Value::U64(n) => SpecValue::U64(n as int),
        Value::F32(t) => SpecValue::F32(t@),
        Value::F64(t) => SpecValue::F64(t@),
        Value::Str(s) => SpecValue::Str(s@),
        Value::Bool(b) => SpecValue::Bool(b),
        Value::Null => SpecValue::Null,
        Value::Object(ps) => SpecValue::Object(sv_pairs(ps@)),
        Value::Array(xs) => SpecValue::Array(sv_elems(xs@)),
    }
}

/// The models of an object's fields, in order.
pub open spec fn sv_pairs(ps: Seq<(String, Value)>) -> Seq<(Seq<char>, SpecValue)>
    decreases ps, 0int,
{
    if ps.len() == 0 {
        Seq::empty()
    } else {
        seq![(ps[0].0@, sv(ps[0].1))] + sv_pairs(ps.skip(1))
    }
}

/// The models of an array's elements, in order.
pub open spec fn sv_elems(xs: Seq<Value>) -> Seq<SpecValue>
    decreases xs, 0int,
{
    if xs.len() == 0 {
        Seq::empty()
    } else {
        seq![sv(xs[0])] + sv_elems(xs.skip(1))
    }
}

/// Pointwise reading of [`sv_pairs`].
pub broadcast proof fn lemma_sv_pairs(ps: Seq<(String, Value)>)
    ensures
        (#[trigger] sv_pairs(ps)).len() == ps.len(),
        forall|i: int| 0 <= i < ps.len() ==> sv_pairs(ps)[i] == (ps[i].0@, sv(ps[i].1)),
    decreases ps.len(),
{
    if ps.len() > 0 {
        lemma_sv_pairs(ps.skip(1));
        assert forall|i: int| 0 <= i < ps.len() implies sv_pairs(ps)[i] == (ps[i].0@, sv(
            ps[i].1,
        )) by {
            if i > 0 {
                assert(sv_pairs(ps)[i] == sv_pairs(ps.skip(1))[i - 1]);
                assert(ps.skip(1)[i - 1] == ps[i]);
            }
        }
    }
}

/// Pointwise reading of [`sv_elems`].
pub broadcast proof fn lemma_sv_elems(xs: Seq<Value>)
    ensures
        (#[trigger] sv_elems(xs)).len() == xs.len(),
        forall|i: int| 0 <= i < xs.len() ==> sv_elems(xs)[i] == sv(xs[i]),
    decreases xs.len(),
{
    if xs.len() > 0 {
        lemma_sv_elems(xs.skip(1));
        assert forall|i: int| 0 <= i < xs.len() implies sv_elems(xs)[i] == sv(xs[i]) by {
            if i > 0 {
                assert(sv_elems(xs)[i] == sv_elems(xs.skip(1))[i - 1]);
                assert(xs.skip(1)[i - 1] == xs[i]);
            }
        }
    }
}

impl View for Value {
    type V = SpecValue;

    open spec fn view(&self) -> SpecValue {
        sv(*self)
    }
}

// ---------------------------------------------------------------------------
// Well-formedness
// ---------------------------------------------------------------------------

/// Object keys are strictly increasing, so they are also unique.
pub open spec fn obj_keys_sorted(ps: Seq<(Seq<char>, SpecValue)>) -> bool {
    forall|i: int, j: int| 0 <= i < j < ps.len() ==> seq_lt(ps[i].0, ps[j].0)
}

/// Well-formedness of a value tree: integers lie in the range of their
/// width, float text is a float literal, and object keys are sorted and
/// unique, recursively.
pub open spec fn wf(v: SpecValue) -> bool
    decreases v,
{
    match v {
        SpecValue::I8(n) => i8::MIN <= n <= i8::MAX,
        SpecValue::I16(n) => i16::MIN <= n <= i16::MAX,
        SpecValue::I32(n) => i32::MIN <= n <= i32::MAX,
        SpecValue::I64(n) => i64::MIN <= n <= i64::MAX,
        SpecValue::U8(n) => 0 <= n <= u8::MAX,
        SpecValue::U16(n) => 0 <= n <= u16::MAX,
        SpecValue::U32(n) => 0 <= n <= u32::MAX,
        SpecValue::U64(n) => 0 <= n <= u64::MAX,
        SpecValue::F32(t) => is_float_text(t),
        SpecValue::F64(t) => is_float_text(t),
        SpecValue::Object(ps) => obj_keys_sorted(ps) && (forall|i: int|
            0 <= i < ps.len() ==> wf(#[trigger] ps[i].1)),
        SpecValue::Array(xs) => forall|i: int| 0 <= i < xs.len() ==> wf(#[trigger] xs[i]),
        _ => true,
    }
}

// ---------------------------------------------------------------------------
// Field lookup
// ---------------------------------------------------------------------------

/// The value of the first field named `k` at or after index `i`.
pub open spec fn obj_lookup_from(
    ps: Seq<(Seq<char>, SpecValue)>,
    k: Seq<char>,
    i: int,
) -> Option<SpecValue>
    decreases ps.len() - i,
{
    if i < 0 || i >= ps.len() {
        None
    } else if ps[i].0 == k {
        Some(ps[i].1)
    } else {
        obj_lookup_from(ps, k, i + 1)
    }
}

/// The value of the field named `k`, if the object has one.
pub open spec fn obj_lookup(ps: Seq<(Seq<char>, SpecValue)>, k: Seq<char>) -> Option<SpecValue> {
    obj_lookup_from(ps, k, 0)
}

impl Value {
    /// Looks up a field of an object by key. Returns `None` when the value
    /// is not an object or has no field with that key.
    pub fn get(&self, key: &str) -> (r: Option<&Value>)
        ensures
            match r {
                Some(v) => self@ matches SpecValue::Object(ps) && obj_lookup(ps, key@) == Some(
                    v@,
                ),
                None => match self@ {
                    SpecValue::Object(ps) => obj_lookup(ps, key@) is None,
                    _ => true,
                },
            },
    {
        match self {
            Value::Object(ps) => {
                let ghost m = sv_pairs(ps@);
                proof {
                    lemma_sv_pairs(ps@);
                }
                let mut i: usize = 0;
                while i < ps.len()
                    invariant
                        i <= ps@.len(),
                        self@ == SpecValue::Object(m),
                        m == sv_pairs(ps@),
                        m.len() == ps@.len(),
                        forall|j: int|
                            0 <= j < m.len() ==> #[trigger] m[j] == (ps@[j].0@, sv(ps@[j].1)),
                        obj_lookup(m, key@) == obj_lookup_from(m, key@, i as int),
                    decreases ps@.len() - i,
                {
                    if crate::text::str_eq_str(ps[i].0.as_str(), key) {
                        return Some(&ps[i].1);
                    }
                    i += 1;
                }
                None
            },
            _ => None,
        }
    }

    /// Whether this value is an 8-bit signed integer.
    pub fn is_i8(&self) -> (r: bool)
        ensures
            r == (self@ is I8),
    {
        matches!(self, Value::I8(_))
    }

    /// Whether this value is a 32-bit unsigned integer.
    pub fn is_u32(&self) -> (r: bool)
        ensures
            r == (self@ is U32),
    {
        matches!(self, Value::U32(_))
    }

    /// Whether this value is a string.
    pub fn is_string(&self) -> (r: bool)
        ensures
            r == (self@ is Str),
    {
        matches!(self, Value::Str(_))
    }

    /// Whether this value is a boolean.
    pub fn is_bool(&self) -> (r: bool)
        ensures
            r == (self@ is Bool),
    {
        matches!(self, Value::Bool(_))
    }

    /// Whether this value is an object.
    pub fn is_object(&self) -> (r: bool)
        ensures
            r == (self@ is Object),
    {
        matches!(self, Value::Object(_))
    }

    /// Whether this value is an array.
    pub fn is_array(&self) -> (r: bool)
        ensures
            r == (self@ is Array),
    {
        matches!(self, Value::Array(_))
    }

    /// The 32-bit unsigned integer held by this value, if any.
    pub fn as_u32(&self) -> (r: Option<u32>)
        ensures
            match r {
                Some(n) => self@ == SpecValue::U32(n as int),
                None => !(self@ is U32),
            },
    {
        if let Value::U32(n) = self {
            Some(*n)
        } else {
            None
        }
    }

    /// The 32-bit signed integer held by this value, if any.
    pub fn as_i32(&self) -> (r: Option<i32>)
        ensures
            match r {
                Some(n) => self@ == SpecValue::I32(n as int),
                None => !(self@ is I32),
            },
    {
        if let Value::I32(n) = self {
            Some(*n)
        } else {
            None
        }
    }

    /// The string held by this value, if any.
    pub fn as_str(&self) -> (r: Option<&str>)
        ensures
            match r {
                Some(s) => self@ == SpecValue::Str(s@),
                None => !(self@ is Str),
            },
    {
        if let Value::Str(s) = self {
            Some(s.as_str())
        } else {
            None
        }
    }

    /// The boolean held by this value, if any.
    pub fn as_bool(&self) -> (r: Option<bool>)
        ensures
            match r {
                Some(b) => self@ == SpecValue::Bool(b),
                None => !(self@ is Bool),
            },
    {
        if let Value::Bool(b) = self {
            Some(*b)
        } else {
            None
        }
    }

    /// The field list held by this value, if it is an object.
    pub fn as_object(&self) -> (r: Option<&Vec<(String, Value)>>)
        ensures
            match r {
                Some(ps) => self == Value::Object(*ps),
                None => !(self@ is Object),
            },
    {
        if let Value::Object(ps) = self {
            Some(ps)
        } else {
            None
        }
    }

    /// The element list held by this value, if it is an array.
    pub fn as_array(&self) -> (r: Option<&Vec<Value>>)
        ensures
            match r {
                Some(xs) => self == Value::Array(*xs),
                None => !(self@ is Array),
            },
    {
        if let Value::Array(xs) = self {
            Some(xs)
        } else {
            None
        }
    }
}

// ---------------------------------------------------------------------------
// Equality
// ---------------------------------------------------------------------------

/// Structural equality of two value trees, comparing text by characters.
pub fn value_eq(a: &Value, b: &Value) -> (r: bool)
    ensures
        r == (a@ == b@),
    decreases a,
{
    match (a, b) {
        (Value::I8(x), Value::I8(y)) => *x == *y,
        (Value::I16(x), Value::I16(y)) => *x == *y,
        (Value::I32(x), Value::I32(y)) => *x == *y,
        (Value::I64(x), Value::I64(y)) => *x == *y,
        (Value::U8(x), Value::U8(y)) => *x == *y,
        (Value::U16(x), Value::U16(y)) => *x == *y,
        (Value::U32(x), Value::U32(y)) => *x == *y,
        (Value::U64(x), Value::U64(y)) => *x == *y,
        (Value::F32(x), Value::F32(y)) => crate::text::str_eq_str(x.as_str(), y.as_str()),
        (Value::F64(x), Value::F64(y)) => crate::text::str_eq_str(x.as_str(), y.as_str()),
        (Value::Str(x), Value::Str(y)) => crate::text::str_eq_str(x.as_str(), y.as_str()),
        (Value::Bool(x), Value::Bool(y)) => *x == *y,
        (Value::Null, Value::Null) => true,
        (Value::Object(x), Value::Object(y)) => {
            let ghost va = sv_pairs(x@);
            let ghost vb = sv_pairs(y@);
            proof {
                lemma_sv_pairs(x@);
                lemma_sv_pairs(y@);
            }
            if x.len() != y.len() {
                proof {
                    assert(va.len() != vb.len());
                }
                return false;
            }
            let mut i: usize = 0;
            while i < x.len()
                invariant
                    a == Value::Object(*x),
                    b == Value::Object(*y),
                    va == sv_pairs(x@),
                    vb == sv_pairs(y@),
                    x@.len() == y@.len(),
                    i <= x@.len(),
                    va.len() == x@.len(),
                    vb.len() == y@.len(),
                    forall|j: int|
                        0 <= j < va.len() ==> #[trigger] va[j] == (x@[j].0@, sv(x@[j].1)),
                    forall|j: int|
                        0 <= j < vb.len() ==> #[trigger] vb[j] == (y@[j].0@, sv(y@[j].1)),
                    forall|j: int| 0 <= j < i ==> #[trigger] va[j] == vb[j],
                decreases x@.len() - i,
            {
                if !crate::text::str_eq_str(x[i].0.as_str(), y[i].0.as_str()) {
                    proof {
                        assert(va[i as int] != vb[i as int]);
                        assert(va != vb);
                    }
                    return false;
                }
                proof {
                    broadcast use vstd::std_specs::vec::group_vec_axioms;

                    assert((*a)->Object_0 == *x);
                    assert(decreases_to!(*a => (*a)->Object_0));
                    assert(decreases_to!(*a => *x));
                    assert(decreases_to!(*x => x@));
                    assert(decreases_to!(x@ => x@[i as int]));
                    assert(decreases_to!(x@[i as int] => x@[i as int].1));
                }
                if !value_eq(&x[i].1, &y[i].1) {
                    proof {
                        assert(va[i as int] != vb[i as int]);
                        assert(va != vb);
                    }
                    return false;
                }
                i += 1;
            }
            proof {
                assert(va =~= vb);
            }
            true
        },
        (Value::Array(x), Value::Array(y)) => {
            let ghost va = sv_elems(x@);
            let ghost vb = sv_elems(y@);
            proof {
                lemma_sv_elems(x@);
                lemma_sv_elems(y@);
            }
            if x.len() != y.len() {
                proof {
                    assert(va.len() != vb.len());
                }
                return false;
            }
            let mut i: usize = 0;
            while i < x.len()
                invariant
                    a == Value::Array(*x),
                    b == Value::Array(*y),
                    va == sv_elems(x@),
                    vb == sv_elems(y@),
                    x@.len() == y@.len(),
                    i <= x@.len(),
                    va.len() == x@.len(),
                    vb.len() == y@.len(),
                    forall|j: int| 0 <= j < va.len() ==> #[trigger] va[j] == sv(x@[j]),
                    forall|j: int| 0 <= j < vb.len() ==> #[trigger] vb[j] == sv(y@[j]),
                    forall|j: int| 0 <= j < i ==> #[trigger] va[j] == vb[j],
                decreases x@.len() - i,
            {
                proof {
                    broadcast use vstd::std_specs::vec::group_vec_axioms;

                    assert((*a)->Array_0 == *x);
                    assert(decreases_to!(*a => (*a)->Array_0));
                    assert(decreases_to!(*a => *x));
                    assert(decreases_to!(*x => x@));
                    assert(decreases_to!(x@ => x@[i as int]));
                }
                if !value_eq(&x[i], &y[i]) {
                    proof {
                        assert(va[i as int] != vb[i as int]);
                        assert(va != vb);
                    }
                    return false;
                }
                i += 1;
            }
            proof {
                assert(va =~= vb);
            }
            true
        },
        _ => {
            proof {
                assert(a@ != b@);
            }
            false
        },
    }
}

/// A deep copy of a value tree; the copy has the same model as the
/// original.
pub fn value_clone(a: &Value) -> (r: Value)
    ensures
        r@ == a@,
    decreases a,
{
    match a {
        Value::I8(n) => Value::I8(*n),
        Value::I16(n) => Value::I16(*n),
        Value::I32(n) => Value::I32(*n),
        Value::I64(n) => Value::I64(*n),
        Value::U8(n) => Value::U8(*n),
        Value::U16(n) => Value::U16(*n),
        Value::U32(n) => Value::U32(*n),
        Value::U64(n) => Value::U64(*n),
        Value::F32(t) => Value::F32(t.clone()),
        Value::F64(t) => Value::F64(t.clone()),
        Value::Str(t) => Value::Str(t.clone()),
        Value::Bool(b) => Value::Bool(*b),
        Value::Null => Value::Null,
        Value::Object(ps) => {
            let mut out: Vec<(String, Value)> = Vec::new();
            let mut i: usize = 0;
            while i < ps.len()
                invariant
                    a == Value::Object(*ps),
                    0 <= i <= ps@.len(),
                    out@.len() == i,
                    forall|j: int|
                        0 <= j < i ==> (#[trigger] out@[j]).0@ == ps@[j].0@ && sv(out@[j].1)
                            == sv(ps@[j].1),
                decreases ps@.len() - i,
            {
                proof {
                    broadcast use vstd::std_specs::vec::group_vec_axioms;

                    assert((*a)->Object_0 == *ps);
                    assert(decreases_to!(*a => (*a)->Object_0));
                    assert(decreases_to!(*a => *ps));
                    assert(decreases_to!(*ps => ps@));
                    assert(decreases_to!(ps@ => ps@[i as int]));
                    assert(decreases_to!(ps@[i as int] => ps@[i as int].1));
                }
                let k = ps[i].0.clone();
                let v = value_clone(&ps[i].1);
                out.push((k, v));
                i += 1;
            }
            proof {
                lemma_sv_pairs(out@);
                lemma_sv_pairs(ps@);
                assert(sv_pairs(out@) =~= sv_pairs(ps@));
            }
            Value::Object(out)
        },
        Value::Array(xs) => {
            let mut out: Vec<Value> = Vec::new();
            let mut i: usize = 0;
            while i < xs.len()
                invariant
                    a == Value::Array(*xs),
                    0 <= i <= xs@.len(),
                    out@.len() == i,
                    forall|j: int| 0 <= j < i ==> sv(#[trigger] out@[j]) == sv(xs@[j]),
                decreases xs@.len() - i,
            {
                proof {
                    broadcast use vstd::std_specs::vec::group_vec_axioms;

                    assert((*a)->Array_0 == *xs);
                    assert(decreases_to!(*a => (*a)->Array_0));
                    assert(decreases_to!(*a => *xs));
                    assert(decreases_to!(*xs => xs@));
                    assert(decreases_to!(xs@ => xs@[i as int]));
                }
                let v = value_clone(&xs[i]);
                out.push(v);
                i += 1;
            }
            proof {
                lemma_sv_elems(out@);
                lemma_sv_elems(xs@);
                assert(sv_elems(out@) =~= sv_elems(xs@));
            }
            Value::Array(out)
        },
    }
}

impl Clone for Value {
    /// A deep copy with the same model; see [`value_clone`].
    fn clone(&self) -> (r: Value)
        ensures
            r@ == self@,
    {
        value_clone(self)
    }
}

impl PartialEq for Value {
    /// Equality of value trees; see [`value_eq`].
    fn eq(&self, other: &Value) -> (r: bool) {
        value_eq(self, other)
    }
}

impl vstd::std_specs::cmp::PartialEqSpecImpl for Value {
    open spec fn obeys_eq_spec() -> bool {
        true
    }

    open spec fn eq_spec(&self, other: &Value) -> bool {
        self@ == other@
    }
}

// ---------------------------------------------------------------------------
// Sorted field lists
// ---------------------------------------------------------------------------

/// Some field of `ps` has key `k`.
pub open spec fn obj_has_key(ps: Seq<(Seq<char>, SpecValue)>, k: Seq<char>) -> bool {
    exists|i: int| 0 <= i < ps.len() && ps[i].0 == k
}

/// The first index at or after `i` whose key is not below `k`.
pub open spec fn insert_pos_from(ps: Seq<(Seq<char>, SpecValue)>, k: Seq<char>, i: int) -> int
    decreases ps.len() - i,
{
    if !(0 <= i < ps.len()) {
        i
    } else if seq_lt(ps[i].0, k) {
        insert_pos_from(ps, k, i + 1)
    } else {
        i
    }
}

/// The position where a field named `k` belongs in the sorted list `ps`.
pub open spec fn insert_pos(ps: Seq<(Seq<char>, SpecValue)>, k: Seq<char>) -> int {
    insert_pos_from(ps, k, 0)
}

/// `ps` with a field `(k, v)` inserted at its sorted position.
pub open spec fn obj_insert(
    ps: Seq<(Seq<char>, SpecValue)>,
    k: Seq<char>,
    v: SpecValue,
) -> Seq<(Seq<char>, SpecValue)> {
    ps.insert(insert_pos(ps, k), (k, v))
}

pub proof fn lemma_insert_pos_from(ps: Seq<(Seq<char>, SpecValue)>, k: Seq<char>, i: int)
    requires
        0 <= i <= ps.len(),
    ensures
        i <= insert_pos_from(ps, k, i) <= ps.len(),
        forall|j: int|
            i <= j < insert_pos_from(ps, k, i) ==> seq_lt(#[trigger] ps[j].0, k),
        insert_pos_from(ps, k, i) < ps.len() ==> !seq_lt(ps[insert_pos_from(ps, k, i)].0, k),
    decreases ps.len() - i,
{
    if 0 <= i < ps.len() && seq_lt(ps[i].0, k) {
        lemma_insert_pos_from(ps, k, i + 1);
    }
}

/// Under sortedness, a key is present exactly when it sits at its own
/// insertion position.
pub proof fn lemma_sorted_key_at_pos(ps: Seq<(Seq<char>, SpecValue)>, k: Seq<char>)
    requires
        obj_keys_sorted(ps),
    ensures
        obj_has_key(ps, k) <==> (insert_pos(ps, k) < ps.len() && ps[insert_pos(ps, k)].0 == k),
{
    lemma_insert_pos_from(ps, k, 0);
    let pos = insert_pos(ps, k);
    if obj_has_key(ps, k) {
        let i = choose|i: int| 0 <= i < ps.len() && ps[i].0 == k;
        crate::text::lemma_seq_lt_connected(ps[i].0, k);
        if i < pos {
            assert(seq_lt(ps[i].0, k));
            assert(false);
        } else if i > pos {
            assert(seq_lt(ps[pos].0, ps[i].0));
            assert(!seq_lt(ps[pos].0, k));
            assert(false);
        }
    }
}

/// Inserting a fresh key at its position keeps the field list sorted, and
/// shifts the models as `Seq::insert` does.
pub proof fn lemma_obj_insert_sorted(ps: Seq<(Seq<char>, SpecValue)>, k: Seq<char>, v: SpecValue)
    requires
        obj_keys_sorted(ps),
        !obj_has_key(ps, k),
    ensures
        obj_keys_sorted(obj_insert(ps, k, v)),
        obj_insert(ps, k, v).len() == ps.len() + 1,
{
    lemma_insert_pos_from(ps, k, 0);
    let pos = insert_pos(ps, k);
    let out = obj_insert(ps, k, v);
    assert forall|i: int, j: int| 0 <= i < j < out.len() implies seq_lt(out[i].0, out[j].0) by {
        if i < pos && j == pos {
            assert(out[i] == ps[i]);
            assert(out[j] == (k, v));
        } else if i == pos && j > pos {
            assert(out[j] == ps[j - 1]);
            assert(ps[j - 1].0 != k);
            crate::text::lemma_seq_lt_connected(ps[j - 1].0, k);
            if j - 1 > pos {
                // later keys are above an unmatched position
                assert(!seq_lt(ps[pos].0, k));
                assert(ps[pos].0 != k);
                crate::text::lemma_seq_lt_connected(ps[pos].0, k);
                assert(seq_lt(k, ps[pos].0));
                assert(seq_lt(ps[pos].0, ps[j - 1].0));
                crate::text::lemma_seq_lt_trans(k, ps[pos].0, ps[j - 1].0);
            } else {
                assert(j - 1 == pos);
                assert(!seq_lt(ps[pos].0, k));
                assert(seq_lt(k, ps[pos].0));
            }
        } else if i < pos && j > pos {
            assert(out[i] == ps[i]);
            assert(out[j] == ps[j - 1]);
            if i == j - 1 {
                assert(seq_lt(ps[i].0, k));
                assert(ps[pos].0 != k);
                crate::text::lemma_seq_lt_connected(ps[pos].0, k);
                assert(seq_lt(k, ps[pos].0));
                crate::text::lemma_seq_lt_trans(ps[i].0, k, ps[j - 1].0);
            }
        } else if j < pos {
            assert(out[i] == ps[i]);
            assert(out[j] == ps[j]);
        } else if i > pos {
            assert(out[i] == ps[i - 1]);
            assert(out[j] == ps[j - 1]);
        }
    }
}


/// Inserting into a field list shifts its models as `Seq::insert` does.
pub proof fn lemma_sv_pairs_insert(ps: Seq<(String, Value)>, i: int, x: (String, Value))
    requires
        0 <= i <= ps.len(),
    ensures
        sv_pairs(ps.insert(i, x)) =~= sv_pairs(ps).insert(i, (x.0@, sv(x.1))),
{
    lemma_sv_pairs(ps.insert(i, x));
    lemma_sv_pairs(ps);
    ps.insert_ensures(i, x);
    sv_pairs(ps).insert_ensures(i, (x.0@, sv(x.1)));
}


// ---------------------------------------------------------------------------
// Canonical field order
// ---------------------------------------------------------------------------

/// `ps` sorted by key: fields taken from the end, each inserted at its
/// sorted position.
pub open spec fn sort_pairs(ps: Seq<(Seq<char>, SpecValue)>) -> Seq<(Seq<char>, SpecValue)>
    decreases ps.len(),
{
    if ps.len() == 0 {
        Seq::empty()
    } else {
        obj_insert(sort_pairs(ps.drop_last()), ps.last().0, ps.last().1)
    }
}

/// The canonical form of a value tree: every object's fields sorted by
/// key, recursively. Serialization renders this form, so its output does
/// not depend on the order in which an object was built.
pub open spec fn normalize(v: SpecValue) -> SpecValue
    decreases v, 1int,
{
    match v {
        SpecValue::Object(ps) => SpecValue::Object(sort_pairs(norm_pairs(ps))),
        SpecValue::Array(xs) => SpecValue::Array(norm_elems(xs)),
        _ => v,
    }
}

/// The fields of an object with each value normalized, order kept.
pub open spec fn norm_pairs(ps: Seq<(Seq<char>, SpecValue)>) -> Seq<(Seq<char>, SpecValue)>
    decreases ps, 0int,
{
    if ps.len() == 0 {
        Seq::empty()
    } else {
        seq![(ps[0].0, normalize(ps[0].1))] + norm_pairs(ps.skip(1))
    }
}

/// The elements of an array, each normalized, order kept.
pub open spec fn norm_elems(xs: Seq<SpecValue>) -> Seq<SpecValue>
    decreases xs, 0int,
{
    if xs.len() == 0 {
        Seq::empty()
    } else {
        seq![normalize(xs[0])] + norm_elems(xs.skip(1))
    }
}

/// Pointwise reading of [`norm_pairs`].
pub broadcast proof fn lemma_norm_pairs(ps: Seq<(Seq<char>, SpecValue)>)
    ensures
        (#[trigger] norm_pairs(ps)).len() == ps.len(),
        forall|i: int| 0 <= i < ps.len() ==> norm_pairs(ps)[i] == (ps[i].0, normalize(ps[i].1)),
    decreases ps.len(),
{
    if ps.len() > 0 {
        lemma_norm_pairs(ps.skip(1));
        assert forall|i: int| 0 <= i < ps.len() implies norm_pairs(ps)[i] == (ps[i].0, normalize(
            ps[i].1,
        )) by {
            if i > 0 {
                assert(norm_pairs(ps)[i] == norm_pairs(ps.skip(1))[i - 1]);
                assert(ps.skip(1)[i - 1] == ps[i]);
            }
        }
    }
}

/// Pointwise reading of [`norm_elems`].
pub broadcast proof fn lemma_norm_elems(xs: Seq<SpecValue>)
    ensures
        (#[trigger] norm_elems(xs)).len() == xs.len(),
        forall|i: int| 0 <= i < xs.len() ==> norm_elems(xs)[i] == normalize(xs[i]),
    decreases xs.len(),
{
    if xs.len() > 0 {
        lemma_norm_elems(xs.skip(1));
        assert forall|i: int| 0 <= i < xs.len() implies norm_elems(xs)[i] == normalize(xs[i]) by {
            if i > 0 {
                assert(norm_elems(xs)[i] == norm_elems(xs.skip(1))[i - 1]);
                assert(xs.skip(1)[i - 1] == xs[i]);
            }
        }
    }
}

/// Normalization keeps a value's variant; a scalar is left untouched.
pub proof fn lemma_normalize_kind(v: SpecValue)
    ensures
        normalize(v) is Object <==> v is Object,
        normalize(v) is Array <==> v is Array,
        normalize(v) is Str <==> v is Str,
        normalize(v) is Null <==> v is Null,
        !(v is Object) && !(v is Array) ==> normalize(v) == v,
{
}

/// Keys below `k` throughout push the insertion position to the end.
pub proof fn lemma_insert_pos_all_lt(acc: Seq<(Seq<char>, SpecValue)>, k: Seq<char>, i: int)
    requires
        0 <= i <= acc.len(),
        forall|j: int| 0 <= j < acc.len() ==> seq_lt(#[trigger] acc[j].0, k),
    ensures
        insert_pos_from(acc, k, i) == acc.len(),
    decreases acc.len() - i,
{
    if i < acc.len() {
        lemma_insert_pos_all_lt(acc, k, i + 1);
    }
}

/// Sorting a field list that is already sorted leaves it unchanged.
pub proof fn lemma_sort_pairs_sorted_id(ps: Seq<(Seq<char>, SpecValue)>)
    requires
        obj_keys_sorted(ps),
    ensures
        sort_pairs(ps) == ps,
    decreases ps.len(),
{
    if ps.len() > 0 {
        let front = ps.drop_last();
        assert(obj_keys_sorted(front)) by {
            assert(forall|i: int| 0 <= i < front.len() ==> #[trigger] front[i] == ps[i]);
        }
        lemma_sort_pairs_sorted_id(front);
        assert forall|j: int| 0 <= j < front.len() implies seq_lt(
            #[trigger] front[j].0,
            ps.last().0,
        ) by {
            assert(front[j] == ps[j]);
        }
        lemma_insert_pos_all_lt(front, ps.last().0, 0);
        front.insert_ensures(front.len() as int, ps.last());
        assert(sort_pairs(ps) =~= ps);
    } else {
        assert(sort_pairs(ps) =~= ps);
    }
}

/// A well-formed tree is already in canonical form.
pub proof fn lemma_normalize_id(v: SpecValue)
    requires
        wf(v),
    ensures
        normalize(v) == v,
    decreases v,
{
    match v {
        SpecValue::Object(ps) => {
            lemma_norm_pairs(ps);
            assert forall|i: int| 0 <= i < ps.len() implies #[trigger] norm_pairs(ps)[i]
                == ps[i] by {
                lemma_normalize_id(ps[i].1);
            }
            assert(norm_pairs(ps) =~= ps);
            lemma_sort_pairs_sorted_id(ps);
        },
        SpecValue::Array(xs) => {
            lemma_norm_elems(xs);
            assert forall|i: int| 0 <= i < xs.len() implies #[trigger] norm_elems(xs)[i]
                == xs[i] by {
                lemma_normalize_id(xs[i]);
            }
            assert(norm_elems(xs) =~= xs);
        },
        _ => {},
    }
}

} // verus!

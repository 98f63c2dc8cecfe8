//! The GBLN serializer: a deterministic value-to-text converter with
//! compact and pretty modes.
//!
//! The exact output is stated by the specification function [`ser_value`];
//! the executable functions return precisely that text.

use vstd::prelude::*;
use crate::numtext::{dec_text, int_text};
use crate::text::push_str_chars;
use crate::value::{
    insert_pos, insert_pos_from, norm_elems, norm_pairs, normalize, obj_insert, sort_pairs, sv,
    sv_elems, sv_pairs, SpecValue, Value,
};

verus! {

// ---------------------------------------------------------------------------
// Scalar rendering
// ---------------------------------------------------------------------------

/// The width class a string of `n` characters is annotated with: the
/// smallest of the fixed breakpoints 2, 4, 8, ..., 512 that holds it, and
/// 1024 for everything longer (even strings beyond 1024 characters, which
/// serialize without error; re-validating such a string against the written
/// code would fail).
pub open spec fn str_breakpoint(n: int) -> int {
    if n <= 2 {
        2
    } else if n <= 4 {
        4
    } else if n <= 8 {
        8
    } else if n <= 16 {
        16
    } else if n <= 32 {
        32
    } else if n <= 64 {
        64
    } else if n <= 128 {
        128
    } else if n <= 256 {
        256
    } else if n <= 512 {
        512
    } else {
        1024
    }
}

/// The string type code for a string of `n` characters, e.g. `s8`.
pub open spec fn str_code_of_len(n: int) -> Seq<char> {
    seq!['s'] + dec_text(str_breakpoint(n))
}

/// A number distinguishing the variants of a value.
pub open spec fn kind_id(v: SpecValue) -> int {
    match v {
        SpecValue::I8(_) => 0,
        SpecValue::I16(_) => 1,
        SpecValue::I32(_) => 2,
        SpecValue::I64(_) => 3,
        SpecValue::U8(_) => 4,
        SpecValue::U16(_) => 5,
        SpecValue::U32(_) => 6,
        SpecValue::U64(_) => 7,
        SpecValue::F32(_) => 8,
        SpecValue::F64(_) => 9,
        SpecValue::Str(_) => 10,
        SpecValue::Bool(_) => 11,
        SpecValue::Null => 12,
        SpecValue::Object(_) => 13,
        SpecValue::Array(_) => 14,
    }
}

/// A scalar: neither an object nor an array.
pub open spec fn is_simple(v: SpecValue) -> bool {
    !(v is Object) && !(v is Array)
}

/// The canonical type code a scalar is annotated with.
pub open spec fn scalar_code(v: SpecValue) -> Seq<char> {
    match v {
        SpecValue::I8(_) => seq!['i', '8'],
        SpecValue::I16(_) => seq!['i', '1', '6'],
        SpecValue::I32(_) => seq!['i', '3', '2'],
        SpecValue::I64(_) => seq!['i', '6', '4'],
        SpecValue::U8(_) => seq!['u', '8'],
        SpecValue::U16(_) => seq!['u', '1', '6'],
        SpecValue::U32(_) => seq!['u', '3', '2'],
        SpecValue::U64(_) => seq!['u', '6', '4'],
        SpecValue::F32(_) => seq!['f', '3', '2'],
        SpecValue::F64(_) => seq!['f', '6', '4'],
        SpecValue::Str(t) => str_code_of_len(t.len() as int),
        SpecValue::Bool(_) => seq!['b'],
        SpecValue::Null => seq!['n'],
        _ => seq!['u', 'n', 'k', 'n', 'o', 'w', 'n'],
    }
}

/// The textual content a scalar carries between its parentheses.
pub open spec fn scalar_body(v: SpecValue) -> Seq<char> {
    match v {
        SpecValue::I8(n) => int_text(n),
        SpecValue::I16(n) => int_text(n),
        SpecValue::I32(n) => int_text(n),
        SpecValue::I64(n) => int_text(n),
        SpecValue::U8(n) => dec_text(n),
        SpecValue::U16(n) => dec_text(n),
        SpecValue::U32(n) => dec_text(n),
        SpecValue::U64(n) => dec_text(n),
        SpecValue::F32(t) => t,
        SpecValue::F64(t) => t,
        SpecValue::Str(t) => t,
        SpecValue::Bool(b) => if b {
            seq!['t']
        } else {
            seq!['f']
        },
        _ => Seq::empty(),
    }
}

/// A scalar's rendering: `<code>(body)`.
pub open spec fn ser_scalar(v: SpecValue) -> Seq<char> {
    seq!['<'] + scalar_code(v) + seq!['>', '('] + scalar_body(v) + seq![')']
}

// ---------------------------------------------------------------------------
// Typed arrays
// ---------------------------------------------------------------------------

/// Every element is a scalar of the same variant as the first.
pub open spec fn homogeneous(xs: Seq<SpecValue>) -> bool {
    xs.len() > 0 && is_simple(xs[0]) && (forall|i: int|
        0 <= i < xs.len() ==> kind_id(#[trigger] xs[i]) == kind_id(xs[0]))
}

/// The largest character count among the string elements.
pub open spec fn max_str_len(xs: Seq<SpecValue>) -> int
    decreases xs.len(),
{
    if xs.len() == 0 {
        0
    } else {
        let rest = max_str_len(xs.skip(1));
        let first: int = match xs[0] {
            SpecValue::Str(t) => t.len() as int,
            _ => 0,
        };
        if first >= rest {
            first
        } else {
            rest
        }
    }
}

/// The one code that annotates a whole typed array: for strings, the code
/// of the longest element; otherwise the first element's code.
pub open spec fn arr_code(xs: Seq<SpecValue>) -> Seq<char>
    recommends
        xs.len() > 0,
{
    if xs[0] is Str {
        str_code_of_len(max_str_len(xs))
    } else {
        scalar_code(xs[0])
    }
}

/// A typed-array element's raw text; null is written out as `null`.
pub open spec fn arr_body(v: SpecValue) -> Seq<char> {
    if v is Null {
        seq!['n', 'u', 'l', 'l']
    } else {
        scalar_body(v)
    }
}

/// The space-separated element texts of a typed array.
pub open spec fn ser_typed_items(xs: Seq<SpecValue>) -> Seq<char>
    decreases xs.len(),
{
    if xs.len() == 0 {
        Seq::empty()
    } else if xs.len() == 1 {
        arr_body(xs[0])
    } else {
        arr_body(xs[0]) + seq![' '] + ser_typed_items(xs.skip(1))
    }
}

/// A homogeneous scalar array in its compact typed form:
/// `<code>[v1 v2 ...]`. Typed arrays are never split over lines.
pub open spec fn ser_typed_array(xs: Seq<SpecValue>) -> Seq<char> {
    seq!['<'] + arr_code(xs) + seq!['>', '['] + ser_typed_items(xs) + seq![']']
}

// ---------------------------------------------------------------------------
// Layout
// ---------------------------------------------------------------------------

/// Four spaces per nesting level.
pub open spec fn sp_indent(n: int) -> Seq<char>
    decreases n,
{
    if n <= 0 {
        Seq::empty()
    } else {
        sp_indent(n - 1) + seq![' ', ' ', ' ', ' ']
    }
}

/// One nesting level deeper, held within the machine's index range.
pub open spec fn deeper(ind: int) -> int {
    if ind < usize::MAX {
        ind + 1
    } else {
        ind
    }
}

// ---------------------------------------------------------------------------
// Values, objects, arrays
// ---------------------------------------------------------------------------

/// The rendering of a value at top level or as an array element: scalars as
/// `<code>(body)`, objects in braces, and homogeneous scalar arrays in the
/// compact typed form.
pub open spec fn ser_value(v: SpecValue, pretty: bool, ind: int) -> Seq<char>
    decreases v, 3int,
{
    match v {
        SpecValue::Object(ps) => ser_obj(ps, pretty, ind),
        SpecValue::Array(xs) => ser_arr_top(xs, pretty, ind),
        _ => ser_scalar(v),
    }
}

/// An object: `{` + fields + `}`; in pretty mode each field stands on its
/// own indented line.
pub open spec fn ser_obj(ps: Seq<(Seq<char>, SpecValue)>, pretty: bool, ind: int) -> Seq<char>
    decreases ps, 2int,
{
    if ps.len() == 0 {
        seq!['{', '}']
    } else if pretty {
        seq!['{', '\n'] + sp_indent(deeper(ind)) + ser_fields(ps, true, ind, true) + seq!['\n']
            + sp_indent(ind) + seq!['}']
    } else {
        seq!['{'] + ser_fields(ps, false, ind, true) + seq!['}']
    }
}

/// The fields of an object, each as `key` + rendering; from the second
/// field on, pretty mode breaks the line first.
pub open spec fn ser_fields(
    ps: Seq<(Seq<char>, SpecValue)>,
    pretty: bool,
    ind: int,
    first: bool,
) -> Seq<char>
    decreases ps, 1int,
{
    if ps.len() == 0 {
        Seq::empty()
    } else {
        let sep: Seq<char> = if pretty && !first {
            seq!['\n'] + sp_indent(deeper(ind))
        } else {
            Seq::empty()
        };
        sep + ps[0].0 + ser_field_val(ps[0].1, pretty, ind) + ser_fields(
            ps.skip(1),
            pretty,
            ind,
            false,
        )
    }
}

/// A field's value: nested objects keep their braces, arrays inside an
/// object always take the generic bracketed form (never the typed
/// shorthand), and scalars render as usual.
pub open spec fn ser_field_val(v: SpecValue, pretty: bool, ind: int) -> Seq<char>
    decreases v, 4int,
{
    match v {
        SpecValue::Object(ps) => ser_obj(ps, pretty, deeper(ind)),
        SpecValue::Array(xs) => ser_arr_plain(xs, pretty, deeper(ind)),
        _ => ser_scalar(v),
    }
}

/// An array at top level (or as an array element): the typed shorthand when
/// homogeneous and scalar, the generic form otherwise.
pub open spec fn ser_arr_top(xs: Seq<SpecValue>, pretty: bool, ind: int) -> Seq<char>
    decreases xs, 2int,
{
    if xs.len() == 0 {
        seq!['[', ']']
    } else if homogeneous(xs) {
        ser_typed_array(xs)
    } else {
        ser_arr_generic(xs, pretty, ind)
    }
}

/// An array in the generic bracketed form, never typed.
pub open spec fn ser_arr_plain(xs: Seq<SpecValue>, pretty: bool, ind: int) -> Seq<char>
    decreases xs, 2int,
{
    if xs.len() == 0 {
        seq!['[', ']']
    } else {
        ser_arr_generic(xs, pretty, ind)
    }
}

/// The generic bracketed array body; in pretty mode every element stands
/// after a line break and indentation.
pub open spec fn ser_arr_generic(xs: Seq<SpecValue>, pretty: bool, ind: int) -> Seq<char>
    decreases xs, 1int,
{
    if pretty {
        seq!['[', '\n'] + sp_indent(deeper(ind)) + ser_elems(xs, true, ind) + seq!['\n']
            + sp_indent(ind) + seq![']']
    } else {
        seq!['['] + ser_elems(xs, false, ind) + seq![']']
    }
}

/// The elements of a generic array; in pretty mode each one is preceded by
/// a line break and indentation.
pub open spec fn ser_elems(xs: Seq<SpecValue>, pretty: bool, ind: int) -> Seq<char>
    decreases xs, 0int,
{
    if xs.len() == 0 {
        Seq::empty()
    } else {
        let sep: Seq<char> = if pretty {
            seq!['\n'] + sp_indent(deeper(ind))
        } else {
            Seq::empty()
        };
        sep + ser_value(xs[0], pretty, deeper(ind)) + ser_elems(xs.skip(1), pretty, ind)
    }
}

// ---------------------------------------------------------------------------
// Executable serialization
// ---------------------------------------------------------------------------

/// The fields selected by a list of indices, in that order.
pub open spec fn sel_pairs(m: Seq<(Seq<char>, SpecValue)>, idxs: Seq<usize>) -> Seq<
    (Seq<char>, SpecValue),
> {
    Seq::new(idxs.len(), |i: int| m[idxs[i] as int])
}

/// Normalization keeps every variant, so it changes neither a value's
/// kind nor whether it is a scalar.
pub proof fn lemma_norm_kind(v: SpecValue)
    ensures
        kind_id(normalize(v)) == kind_id(v),
        is_simple(normalize(v)) == is_simple(v),
        is_simple(v) ==> normalize(v) == v,
{
}

/// Whether this value is a scalar (executable form of [`is_simple`]).
fn is_simple_type(value: &Value) -> (r: bool)
    ensures
        r == is_simple(value@),
{
    !(matches!(value, Value::Object(_)) || matches!(value, Value::Array(_)))
}

/// The variant number of a value (executable form of [`kind_id`]).
fn value_kind(value: &Value) -> (r: u8)
    ensures
        r as int == kind_id(value@),
{
    match value {
        Value::I8(_) => 0,
        Value::I16(_) => 1,
        Value::I32(_) => 2,
        Value::I64(_) => 3,
        Value::U8(_) => 4,
        Value::U16(_) => 5,
        Value::U32(_) => 6,
        Value::U64(_) => 7,
        Value::F32(_) => 8,
        Value::F64(_) => 9,
        Value::Str(_) => 10,
        Value::Bool(_) => 11,
        Value::Null => 12,
        Value::Object(_) => 13,
        Value::Array(_) => 14,
    }
}

/// Whether two values have the same variant.
fn same_type(a: &Value, b: &Value) -> (r: bool)
    ensures
        r == (kind_id(a@) == kind_id(b@)),
{
    value_kind(a) == value_kind(b)
}

/// The string type code for a string of `len` characters (executable form
/// of [`str_code_of_len`]).
fn infer_string_type(len: usize) -> (r: String)
    ensures
        r@ == str_code_of_len(len as int),
{
    let bp: u64 = if len <= 2 {
        2
    } else if len <= 4 {
        4
    } else if len <= 8 {
        8
    } else if len <= 16 {
        16
    } else if len <= 32 {
        32
    } else if len <= 64 {
        64
    } else if len <= 128 {
        128
    } else if len <= 256 {
        256
    } else if len <= 512 {
        512
    } else {
        1024
    };
    let mut out: Vec<char> = Vec::new();
    out.push('s');
    crate::numtext::push_u64_text(&mut out, bp);
    let r = crate::text::chars_to_string(&out);
    proof {
        assert(out@ =~= seq!['s'] + dec_text(str_breakpoint(len as int)));
    }
    r
}

/// The canonical type code of a value (executable form of [`scalar_code`];
/// containers give `unknown`).
fn get_type_hint(value: &Value) -> (r: String)
    ensures
        r@ == scalar_code(value@),
{
    match value {
        Value::Str(s) => infer_string_type(s.as_str().unicode_len()),
        Value::I8(_) | Value::I16(_) | Value::I32(_) | Value::I64(_) | Value::U8(_)
            | Value::U16(_) | Value::U32(_) | Value::U64(_) | Value::F32(_) | Value::F64(_)
            | Value::Bool(_) | Value::Null | Value::Object(_) | Value::Array(_) => {
            let mut out: Vec<char> = Vec::new();
            push_code(&mut out, value);
            crate::text::chars_to_string(&out)
        },
    }
}

/// Appends the type code of a value.
fn push_code(out: &mut Vec<char>, value: &Value)
    ensures
        final(out)@ == old(out)@ + scalar_code(value@),
{
    match value {
        Value::I8(_) => {
            push_str_chars(out, "i8");
            proof {
                reveal_strlit("i8");
                assert(old(out)@ + "i8"@ =~= old(out)@ + scalar_code(value@));
            }
        },
        Value::I16(_) => {
            push_str_chars(out, "i16");
            proof {
                reveal_strlit("i16");
                assert(old(out)@ + "i16"@ =~= old(out)@ + scalar_code(value@));
            }
        },
        Value::I32(_) => {
            push_str_chars(out, "i32");
            proof {
                reveal_strlit("i32");
                assert(old(out)@ + "i32"@ =~= old(out)@ + scalar_code(value@));
            }
        },
        Value::I64(_) => {
            push_str_chars(out, "i64");
            proof {
                reveal_strlit("i64");
                assert(old(out)@ + "i64"@ =~= old(out)@ + scalar_code(value@));
            }
        },
        Value::U8(_) => {
            push_str_chars(out, "u8");
            proof {
                reveal_strlit("u8");
                assert(old(out)@ + "u8"@ =~= old(out)@ + scalar_code(value@));
            }
        },
        Value::U16(_) => {
            push_str_chars(out, "u16");
            proof {
                reveal_strlit("u16");
                assert(old(out)@ + "u16"@ =~= old(out)@ + scalar_code(value@));
            }
        },
        Value::U32(_) => {
            push_str_chars(out, "u32");
            proof {
                reveal_strlit("u32");
                assert(old(out)@ + "u32"@ =~= old(out)@ + scalar_code(value@));
            }
        },
        Value::U64(_) => {
            push_str_chars(out, "u64");
            proof {
                reveal_strlit("u64");
                assert(old(out)@ + "u64"@ =~= old(out)@ + scalar_code(value@));
            }
        },
        Value::F32(_) => {
            push_str_chars(out, "f32");
            proof {
                reveal_strlit("f32");
                assert(old(out)@ + "f32"@ =~= old(out)@ + scalar_code(value@));
            }
        },
        Value::F64(_) => {
            push_str_chars(out, "f64");
            proof {
                reveal_strlit("f64");
                assert(old(out)@ + "f64"@ =~= old(out)@ + scalar_code(value@));
            }
        },
        Value::Str(s) => {
            let code = infer_string_type(s.as_str().unicode_len());
            push_str_chars(out, code.as_str());
        },
        Value::Bool(_) => {
            out.push('b');
            proof {
                assert(out@ =~= old(out)@ + scalar_code(value@));
            }
        },
        Value::Null => {
            out.push('n');
            proof {
                assert(out@ =~= old(out)@ + scalar_code(value@));
            }
        },
        Value::Object(_) | Value::Array(_) => {
            push_str_chars(out, "unknown");
            proof {
                reveal_strlit("unknown");
                assert(old(out)@ + "unknown"@ =~= old(out)@ + scalar_code(value@));
            }
        },
    }
}

/// Appends the raw content of a scalar (executable form of
/// [`scalar_body`]).
fn push_body(out: &mut Vec<char>, value: &Value)
    ensures
        final(out)@ == old(out)@ + scalar_body(value@),
{
    match value {
        Value::I8(n) => crate::numtext::push_i64_text(out, *n as i64),
        Value::I16(n) => crate::numtext::push_i64_text(out, *n as i64),
        Value::I32(n) => crate::numtext::push_i64_text(out, *n as i64),
        Value::I64(n) => crate::numtext::push_i64_text(out, *n),
        Value::U8(n) => crate::numtext::push_u64_text(out, *n as u64),
        Value::U16(n) => crate::numtext::push_u64_text(out, *n as u64),
        Value::U32(n) => crate::numtext::push_u64_text(out, *n as u64),
        Value::U64(n) => crate::numtext::push_u64_text(out, *n),
        Value::F32(t) => push_str_chars(out, t.as_str()),
        Value::F64(t) => push_str_chars(out, t.as_str()),
        Value::Str(t) => push_str_chars(out, t.as_str()),
        Value::Bool(b) => {
            if *b {
                out.push('t');
            } else {
                out.push('f');
            }
            proof {
                assert(out@ =~= old(out)@ + scalar_body(value@));
            }
        },
        Value::Null | Value::Object(_) | Value::Array(_) => {
            proof {
                assert(out@ =~= old(out)@ + scalar_body(value@));
            }
        },
    }
}

/// Appends `<code>(body)` for a scalar. Inside an object this is the whole
/// rendering of a scalar field.
fn serialize_typed_value(out: &mut Vec<char>, value: &Value)
    ensures
        final(out)@ == old(out)@ + ser_scalar(value@),
{
    out.push('<');
    push_code(out, value);
    out.push('>');
    out.push('(');
    push_body(out, value);
    out.push(')');
    proof {
        assert(out@ =~= old(out)@ + ser_scalar(value@));
    }
}

/// Appends four spaces per level.
fn push_indent(out: &mut Vec<char>, n: usize)
    ensures
        final(out)@ == old(out)@ + sp_indent(n as int),
{
    let mut i: usize = 0;
    while i < n
        invariant
            i <= n,
            out@ == old(out)@ + sp_indent(i as int),
        decreases n - i,
    {
        push_str_chars(out, "    ");
        proof {
            reveal_strlit("    ");
            assert("    "@ =~= seq![' ', ' ', ' ', ' ']);
            assert(old(out)@ + sp_indent(i as int) + seq![' ', ' ', ' ', ' '] =~= old(out)@
                + sp_indent(i + 1));
        }
        i += 1;
    }
}

/// One nesting level deeper (executable form of [`deeper`]).
fn bump(ind: usize) -> (r: usize)
    ensures
        r as int == deeper(ind as int),
{
    if ind < usize::MAX {
        ind + 1
    } else {
        ind
    }
}

/// Appends the rendering of a value at top level or as an array element,
/// in canonical form: every object's fields sorted by key.
fn serialize_value(out: &mut Vec<char>, value: &Value, pretty: bool, indent: usize)
    ensures
        final(out)@ == old(out)@ + ser_value(normalize(value@), pretty, indent as int),
    decreases value, 3int,
{
    match value {
        Value::Object(ps) => {
            proof {
                broadcast use vstd::std_specs::vec::group_vec_axioms;

                assert((*value)->Object_0 == *ps);
                assert(decreases_to!(*value => (*value)->Object_0));
            }
            serialize_object(out, ps, pretty, indent);
        },
        Value::Array(xs) => {
            proof {
                broadcast use vstd::std_specs::vec::group_vec_axioms;

                assert((*value)->Array_0 == *xs);
                assert(decreases_to!(*value => (*value)->Array_0));
            }
            serialize_array(out, xs, pretty, indent);
        },
        _ => {
            proof {
                lemma_norm_kind(value@);
            }
            serialize_typed_value(out, value);
        },
    }
}

/// Appends an object: `{` + each field as `key` + rendering + `}`, with
/// one indented line per field in pretty mode. Fields are written in
/// ascending key order, whatever order they are stored in, so the output
/// does not depend on how the object was built.
#[verifier::rlimit(80)]
fn serialize_object(out: &mut Vec<char>, ps: &Vec<(String, Value)>, pretty: bool, indent: usize)
    ensures
        final(out)@ == old(out)@ + ser_obj(
            sort_pairs(norm_pairs(sv_pairs(ps@))),
            pretty,
            indent as int,
        ),
    decreases ps, 2int,
{
    let ghost m = sv_pairs(ps@);
    let ghost nm = norm_pairs(m);
    let ghost sm = sort_pairs(nm);
    let ghost ind = indent as int;
    proof {
        crate::value::lemma_sv_pairs(ps@);
        crate::value::lemma_norm_pairs(m);
    }
    if ps.len() == 0 {
        proof {
            assert(nm =~= Seq::<(Seq<char>, SpecValue)>::empty());
            assert(sm =~= Seq::<(Seq<char>, SpecValue)>::empty());
        }
        push_str_chars(out, "{}");
        proof {
            reveal_strlit("{}");
            assert(old(out)@ + "{}"@ =~= old(out)@ + ser_obj(sm, pretty, ind));
        }
        return ;
    }
    // the order in which the fields serialize: indices sorted by key
    let mut order: Vec<usize> = Vec::new();
    let mut j: usize = 0;
    proof {
        assert(sel_pairs(nm, order@) =~= Seq::<(Seq<char>, SpecValue)>::empty());
        assert(nm.take(0) =~= Seq::<(Seq<char>, SpecValue)>::empty());
        assert(sel_pairs(nm, order@) == sort_pairs(nm.take(0)));
    }
    while j < ps.len()
        invariant
            m == sv_pairs(ps@),
            nm == norm_pairs(m),
            m.len() == ps@.len(),
            nm.len() == ps@.len(),
            forall|i: int| 0 <= i < m.len() ==> #[trigger] m[i] == (ps@[i].0@, sv(ps@[i].1)),
            forall|i: int| 0 <= i < nm.len() ==> #[trigger] nm[i] == (m[i].0, normalize(m[i].1)),
            0 <= j <= ps@.len(),
            order@.len() == j,
            forall|i: int| 0 <= i < order@.len() ==> #[trigger] order@[i] < ps@.len(),
            sel_pairs(nm, order@) == sort_pairs(nm.take(j as int)),
        decreases ps@.len() - j,
    {
        let ghost sel = sel_pairs(nm, order@);
        let ghost key = nm[j as int].0;
        proof {
            assert(key == ps@[j as int].0@);
        }
        let mut pos: usize = 0;
        loop
            invariant
                m == sv_pairs(ps@),
                nm == norm_pairs(m),
                m.len() == ps@.len(),
                nm.len() == ps@.len(),
                forall|i: int| 0 <= i < m.len() ==> #[trigger] m[i] == (ps@[i].0@, sv(ps@[i].1)),
                forall|i: int|
                    0 <= i < nm.len() ==> #[trigger] nm[i] == (m[i].0, normalize(m[i].1)),
                j < ps@.len(),
                order@.len() <= ps@.len(),
                forall|i: int| 0 <= i < order@.len() ==> #[trigger] order@[i] < ps@.len(),
                sel == sel_pairs(nm, order@),
                key == ps@[j as int].0@,
                0 <= pos <= order@.len(),
                insert_pos(sel, key) == insert_pos_from(sel, key, pos as int),
            ensures
                0 <= pos <= order@.len(),
                pos as int == insert_pos(sel, key),
            decreases order@.len() - pos,
        {
            if pos >= order.len() {
                break ;
            }
            let ghost op = order@[pos as int] as int;
            proof {
                assert(sel[pos as int] == nm[op]);
                assert(sel[pos as int].0 == ps@[op].0@);
            }
            if !crate::text::str_lt_str(ps[order[pos]].0.as_str(), ps[j].0.as_str()) {
                break ;
            }
            pos += 1;
        }
        let ghost old_order = order@;
        order.insert(pos, j);
        proof {
            old_order.insert_ensures(pos as int, j);
            sel.insert_ensures(pos as int, nm[j as int]);
            assert forall|k: int|
                0 <= k < order@.len() implies sel_pairs(nm, order@)[k] == sel.insert(
                pos as int,
                nm[j as int],
            )[k] by {
                if k < pos {
                    assert(order@[k] == old_order[k]);
                } else if k == pos {
                    assert(order@[k] == j);
                } else {
                    assert(order@[k] == old_order[k - 1]);
                }
            }
            assert(sel_pairs(nm, order@) =~= sel.insert(pos as int, nm[j as int]));
            assert((key, nm[j as int].1) == nm[j as int]);
            assert(sel_pairs(nm, order@) == obj_insert(sel, key, nm[j as int].1));
            assert(nm.take(j + 1).drop_last() =~= nm.take(j as int));
            assert(nm.take(j + 1).last() == nm[j as int]);
            assert(sort_pairs(nm.take(j + 1)) == obj_insert(
                sort_pairs(nm.take(j as int)),
                key,
                nm[j as int].1,
            ));
        }
        j += 1;
    }
    proof {
        assert(nm.take(ps@.len() as int) =~= nm);
        assert(sel_pairs(nm, order@) == sm);
        assert forall|i: int| 0 <= i < order@.len() implies #[trigger] sm[i] == nm[order@[i] as int] by {
            assert(sel_pairs(nm, order@)[i] == nm[order@[i] as int]);
        }
    }
    out.push('{');
    if pretty {
        out.push('\n');
        push_indent(out, bump(indent));
    }
    let ghost head = out@;
    let mut i: usize = 0;
    proof {
        assert(sm.skip(0) =~= sm);
    }
    while i < order.len()
        invariant
            m == sv_pairs(ps@),
            nm == norm_pairs(m),
            sm == sort_pairs(nm),
            m.len() == ps@.len(),
            nm.len() == ps@.len(),
            sm.len() == order@.len(),
            order@.len() == ps@.len(),
            forall|k: int| 0 <= k < m.len() ==> #[trigger] m[k] == (ps@[k].0@, sv(ps@[k].1)),
            forall|k: int|
                0 <= k < nm.len() ==> #[trigger] nm[k] == (m[k].0, normalize(m[k].1)),
            forall|k: int| 0 <= k < order@.len() ==> #[trigger] order@[k] < ps@.len(),
            forall|k: int| 0 <= k < order@.len() ==> #[trigger] sm[k] == nm[order@[k] as int],
            ind == indent as int,
            0 <= i <= order@.len(),
            head + ser_fields(sm, pretty, ind, true) =~= out@ + ser_fields(
                sm.skip(i as int),
                pretty,
                ind,
                i == 0,
            ),
        decreases order@.len() - i,
    {
        let ghost before = out@;
        if pretty && i > 0 {
            out.push('\n');
            push_indent(out, bump(indent));
        }
        let oi = order[i];
        let ghost goi = oi as int;
        push_str_chars(out, ps[oi].0.as_str());
        proof {
            broadcast use vstd::std_specs::vec::group_vec_axioms;

            assert(decreases_to!(ps => ps@));
            assert(decreases_to!(ps@ => ps@[goi]));
            assert(decreases_to!(ps@[goi] => ps@[goi].1));
        }
        match &ps[oi].1 {
            Value::Object(inner) => {
                proof {
                    assert((ps@[goi].1)->Object_0 == *inner);
                    assert(decreases_to!(ps@[goi].1 => (ps@[goi].1)->Object_0));
                }
                serialize_object(out, inner, pretty, bump(indent));
            },
            Value::Array(inner) => {
                proof {
                    assert((ps@[goi].1)->Array_0 == *inner);
                    assert(decreases_to!(ps@[goi].1 => (ps@[goi].1)->Array_0));
                }
                serialize_array_in_object(out, inner, pretty, bump(indent));
            },
            _ => {
                proof {
                    lemma_norm_kind(sv(ps@[goi].1));
                }
                serialize_typed_value(out, &ps[oi].1);
            },
        }
        proof {
            let mi = sm.skip(i as int);
            assert(mi[0] == sm[i as int]);
            assert(mi.skip(1) =~= sm.skip(i + 1));
            assert(sm[i as int] == (ps@[goi].0@, normalize(sv(ps@[goi].1))));
            assert(ser_fields(mi, pretty, ind, i == 0) == (if pretty && !(i == 0) {
                seq!['\n'] + sp_indent(deeper(ind))
            } else {
                Seq::<char>::empty()
            }) + sm[i as int].0 + ser_field_val(sm[i as int].1, pretty, ind) + ser_fields(
                sm.skip(i + 1),
                pretty,
                ind,
                false,
            ));
            assert(out@ =~= before + (if pretty && !(i == 0) {
                seq!['\n'] + sp_indent(deeper(ind))
            } else {
                Seq::<char>::empty()
            }) + sm[i as int].0 + ser_field_val(sm[i as int].1, pretty, ind));
            assert(head + ser_fields(sm, pretty, ind, true) =~= out@ + ser_fields(
                sm.skip(i + 1),
                pretty,
                ind,
                false,
            ));
        }
        i += 1;
    }
    proof {
        assert(sm.skip(order@.len() as int).len() == 0);
        assert(out@ =~= head + ser_fields(sm, pretty, ind, true));
    }
    if pretty {
        out.push('\n');
        push_indent(out, indent);
    }
    out.push('}');
    proof {
        assert(sm.len() == ps@.len());
        assert(out@ =~= old(out)@ + ser_obj(sm, pretty, ind));
    }
}

/// Appends an array standing in an object field: always the generic
/// bracketed form, never the typed shorthand.
fn serialize_array_in_object(out: &mut Vec<char>, xs: &Vec<Value>, pretty: bool, indent: usize)
    ensures
        final(out)@ == old(out)@ + ser_arr_plain(
            norm_elems(sv_elems(xs@)),
            pretty,
            indent as int,
        ),
    decreases xs, 2int,
{
    let ghost nm = norm_elems(sv_elems(xs@));
    proof {
        crate::value::lemma_sv_elems(xs@);
        crate::value::lemma_norm_elems(sv_elems(xs@));
    }
    if xs.len() == 0 {
        push_str_chars(out, "[]");
        proof {
            reveal_strlit("[]");
            assert(old(out)@ + "[]"@ =~= old(out)@ + ser_arr_plain(nm, pretty, indent as int));
        }
        return ;
    }
    serialize_generic_items(out, xs, pretty, indent);
    proof {
        assert(old(out)@ + ser_arr_generic(nm, pretty, indent as int) =~= old(out)@
            + ser_arr_plain(nm, pretty, indent as int));
    }
}

/// Appends an array at top level: the typed shorthand for a homogeneous
/// scalar array, the generic form otherwise.
fn serialize_array(out: &mut Vec<char>, xs: &Vec<Value>, pretty: bool, indent: usize)
    ensures
        final(out)@ == old(out)@ + ser_arr_top(
            norm_elems(sv_elems(xs@)),
            pretty,
            indent as int,
        ),
    decreases xs, 2int,
{
    let ghost m = sv_elems(xs@);
    let ghost nm = norm_elems(m);
    proof {
        crate::value::lemma_sv_elems(xs@);
        crate::value::lemma_norm_elems(m);
        assert forall|i: int|
            0 <= i < m.len() implies kind_id(#[trigger] nm[i]) == kind_id(m[i]) && is_simple(
            nm[i],
        ) == is_simple(m[i]) by {
            lemma_norm_kind(m[i]);
        }
    }
    if xs.len() == 0 {
        push_str_chars(out, "[]");
        proof {
            assert(nm =~= Seq::<SpecValue>::empty());
            reveal_strlit("[]");
            assert(old(out)@ + "[]"@ =~= old(out)@ + ser_arr_top(nm, pretty, indent as int));
        }
        return ;
    }
    let mut all_same = is_simple_type(&xs[0]);
    let mut i: usize = 1;
    while i < xs.len() && all_same
        invariant
            m == sv_elems(xs@),
            m.len() == xs@.len(),
            xs@.len() > 0,
            forall|j: int| 0 <= j < m.len() ==> #[trigger] m[j] == sv(xs@[j]),
            1 <= i <= xs@.len(),
            all_same ==> is_simple(m[0]) && (forall|j: int|
                0 <= j < i ==> kind_id(#[trigger] m[j]) == kind_id(m[0])),
            !all_same ==> !homogeneous(m),
        decreases xs@.len() - i,
    {
        if !same_type(&xs[i], &xs[0]) {
            proof {
                assert(kind_id(m[i as int]) != kind_id(m[0]));
                assert(!homogeneous(m));
            }
            all_same = false;
        }
        i += 1;
    }
    if all_same {
        proof {
            assert(homogeneous(m));
            assert forall|i: int| 0 <= i < m.len() implies #[trigger] nm[i] == m[i] by {
                assert(kind_id(m[i]) == kind_id(m[0]));
                assert(is_simple(m[i]));
                lemma_norm_kind(m[i]);
            }
            assert(nm =~= m);
            assert(homogeneous(nm));
        }
        serialize_typed_array(out, xs);
        proof {
            assert(ser_typed_array(m) == ser_typed_array(nm));
        }
    } else {
        proof {
            if homogeneous(nm) {
                crate::value::lemma_norm_elems(sv_elems(xs@));
                lemma_norm_kind(m[0]);
                assert(is_simple(m[0]));
                assert forall|i: int|
                    0 <= i < m.len() implies kind_id(#[trigger] m[i]) == kind_id(m[0]) by {
                    lemma_norm_kind(m[i]);
                    assert(kind_id(nm[i]) == kind_id(nm[0]));
                }
                assert(homogeneous(m));
                assert(false);
            }
        }
        serialize_generic_items(out, xs, pretty, indent);
    }
}

/// Appends the generic bracketed rendering of a non-empty array; in pretty
/// mode every element stands after a line break and indentation.
fn serialize_generic_items(out: &mut Vec<char>, xs: &Vec<Value>, pretty: bool, indent: usize)
    requires
        xs@.len() > 0,
    ensures
        final(out)@ == old(out)@ + ser_arr_generic(
            norm_elems(sv_elems(xs@)),
            pretty,
            indent as int,
        ),
    decreases xs, 1int,
{
    let ghost m = norm_elems(sv_elems(xs@));
    let ghost ind = indent as int;
    proof {
        crate::value::lemma_sv_elems(xs@);
        crate::value::lemma_norm_elems(sv_elems(xs@));
    }
    out.push('[');
    if pretty {
        out.push('\n');
        push_indent(out, bump(indent));
    }
    let ghost head = out@;
    let mut i: usize = 0;
    proof {
        assert(m.skip(0) =~= m);
    }
    while i < xs.len()
        invariant
            m == norm_elems(sv_elems(xs@)),
            m.len() == xs@.len(),
            forall|j: int| 0 <= j < m.len() ==> #[trigger] m[j] == normalize(sv(xs@[j])),
            ind == indent as int,
            0 <= i <= xs@.len(),
            head + ser_elems(m, pretty, ind) =~= out@ + ser_elems(m.skip(i as int), pretty, ind),
        decreases xs@.len() - i,
    {
        let ghost before = out@;
        if pretty {
            out.push('\n');
            push_indent(out, bump(indent));
        }
        proof {
            broadcast use vstd::std_specs::vec::group_vec_axioms;

            assert(decreases_to!(xs => xs@));
            assert(decreases_to!(xs@ => xs@[i as int]));
        }
        serialize_value(out, &xs[i], pretty, bump(indent));
        proof {
            let mi = m.skip(i as int);
            assert(mi[0] == m[i as int]);
            assert(mi.skip(1) =~= m.skip(i + 1));
            assert(out@ =~= before + (if pretty {
                seq!['\n'] + sp_indent(deeper(ind))
            } else {
                Seq::<char>::empty()
            }) + ser_value(m[i as int], pretty, deeper(ind)));
            assert(head + ser_elems(m, pretty, ind) =~= out@ + ser_elems(
                m.skip(i + 1),
                pretty,
                ind,
            ));
        }
        i += 1;
    }
    proof {
        assert(m.skip(xs@.len() as int).len() == 0);
        assert(out@ =~= head + ser_elems(m, pretty, ind));
    }
    if pretty {
        out.push('\n');
        push_indent(out, indent);
    }
    out.push(']');
    proof {
        assert(out@ =~= old(out)@ + ser_arr_generic(m, pretty, ind));
    }
}

/// Appends the compact typed form `<code>[v1 v2 ...]` of a homogeneous
/// scalar array.
fn serialize_typed_array(out: &mut Vec<char>, xs: &Vec<Value>)
    requires
        homogeneous(sv_elems(xs@)),
    ensures
        final(out)@ == old(out)@ + ser_typed_array(sv_elems(xs@)),
{
    let ghost m = sv_elems(xs@);
    proof {
        crate::value::lemma_sv_elems(xs@);
    }
    out.push('<');
    if matches!(&xs[0], Value::Str(_)) {
        let mut longest: usize = 0;
        let mut i: usize = xs.len();
        proof {
            assert(m.skip(xs@.len() as int).len() == 0);
        }
        while i > 0
            invariant
                m == sv_elems(xs@),
                m.len() == xs@.len(),
                forall|j: int| 0 <= j < m.len() ==> #[trigger] m[j] == sv(xs@[j]),
                0 <= i <= xs@.len(),
                longest as int == max_str_len(m.skip(i as int)),
            decreases i,
        {
            i = i - 1;
            let cur: usize = match &xs[i] {
                Value::Str(t) => t.as_str().unicode_len(),
                _ => 0,
            };
            if cur > longest {
                longest = cur;
            }
            proof {
                let mi = m.skip(i as int);
                assert(mi[0] == m[i as int]);
                assert(mi.skip(1) =~= m.skip(i + 1));
            }
        }
        proof {
            assert(m.skip(0) =~= m);
        }
        let code = infer_string_type(longest);
        push_str_chars(out, code.as_str());
    } else {
        push_code(out, &xs[0]);
        proof {
            assert(scalar_code(m[0]) == arr_code(m));
        }
    }
    out.push('>');
    out.push('[');
    let ghost head = out@;
    let mut i: usize = 0;
    proof {
        assert(m.skip(0) =~= m);
    }
    while i < xs.len()
        invariant
            m == sv_elems(xs@),
            m.len() == xs@.len(),
            m.len() > 0,
            forall|j: int| 0 <= j < m.len() ==> #[trigger] m[j] == sv(xs@[j]),
            0 <= i <= xs@.len(),
            head + ser_typed_items(m) =~= out@ + ser_typed_items(m.skip(i as int)),
        decreases xs@.len() - i,
    {
        let ghost before = out@;
        match &xs[i] {
            Value::Null => {
                push_str_chars(out, "null");
                proof {
                    reveal_strlit("null");
                    assert("null"@ =~= arr_body(m[i as int]));
                }
            },
            _ => {
                push_body(out, &xs[i]);
            },
        }
        if i + 1 < xs.len() {
            out.push(' ');
        }
        proof {
            let mi = m.skip(i as int);
            assert(mi[0] == m[i as int]);
            assert(mi.skip(1) =~= m.skip(i + 1));
            if i + 1 < xs@.len() {
                assert(out@ =~= before + arr_body(m[i as int]) + seq![' ']);
            } else {
                assert(out@ =~= before + arr_body(m[i as int]));
                assert(mi.len() == 1);
            }
            assert(head + ser_typed_items(m) =~= out@ + ser_typed_items(m.skip(i + 1)));
        }
        i += 1;
    }
    proof {
        assert(m.skip(xs@.len() as int).len() == 0);
        assert(out@ =~= head + ser_typed_items(m));
    }
    out.push(']');
    proof {
        assert(out@ =~= old(out)@ + ser_typed_array(m));
    }
}

/// Serializes a value to compact GBLN text: exactly the characters of
/// [`ser_value`] on the canonical form of the tree (every object's fields
/// sorted by key), without structural whitespace.
pub fn to_string(value: &Value) -> (r: String)
    ensures
        r@ == ser_value(normalize(value@), false, 0),
{
    let mut out: Vec<char> = Vec::new();
    serialize_value(&mut out, value, false, 0);
    crate::text::chars_to_string(&out)
}

/// Serializes a value to pretty GBLN text, indented four spaces per level:
/// exactly the characters of [`ser_value`] on the canonical form of the
/// tree, in pretty mode.
pub fn to_string_pretty(value: &Value) -> (r: String)
    ensures
        r@ == ser_value(normalize(value@), true, 0),
{
    let mut out: Vec<char> = Vec::new();
    serialize_value(&mut out, value, true, 0);
    crate::text::chars_to_string(&out)
}

} // verus!

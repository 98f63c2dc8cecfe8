//! General properties of the library, stated and proved once for all
//! inputs.
//!
//! The centerpiece is the round trip: a well-behaved value tree serialized
//! to compact text parses back to exactly the same tree, and serializing
//! again gives the same text.

use vstd::prelude::*;
use crate::lexer::{
    ident_end, ident_end_from, next_tok, raw_end, skip_ws, SpecTok, starts_ident_tok,
};
use crate::numtext::{
    dec_text, digits_end, e_pos, exp_ok, inf_nan_ok, int_of_text, int_text, is_float_text,
    lemma_dec_text_digits, lemma_int_text_roundtrip, mantissa_ok,
};
use crate::parser::{
    clean_after, sp_array, sp_cont, sp_document, sp_fields, sp_hint, sp_items, sp_object,
    sp_typed_content, sp_typed_scalar, sp_value,
};
use crate::serializer::{
    deeper, homogeneous, is_simple, scalar_body, scalar_code, ser_arr_generic, ser_arr_plain,
    ser_elems, ser_field_val, ser_fields, ser_obj, ser_scalar, ser_value, str_breakpoint,
};
use crate::text::{is_digit_char, is_ident_cont_char, is_numericish_char, is_ws_char, seq_lt};
use crate::types::{hint_conv, hint_of_text, hint_text, TypeHint};
use crate::value::{
    lemma_insert_pos_all_lt, obj_has_key, obj_insert, obj_keys_sorted, wf, SpecValue,
};

verus! {

// ---------------------------------------------------------------------------
// Windows: a known piece of text standing inside a larger input
// ---------------------------------------------------------------------------

/// `s` holds exactly the text `t` starting at position `p`.
pub open spec fn has_at(s: Seq<char>, p: int, t: Seq<char>) -> bool {
    0 <= p && p + t.len() <= s.len() && s.subrange(p, p + t.len()) == t
}

pub proof fn lemma_has_at_index(s: Seq<char>, p: int, t: Seq<char>)
    requires
        has_at(s, p, t),
    ensures
        forall|i: int| 0 <= i < t.len() ==> s[p + i] == #[trigger] t[i],
{
    assert forall|i: int| 0 <= i < t.len() implies s[p + i] == #[trigger] t[i] by {
        assert(s.subrange(p, p + t.len())[i] == s[p + i]);
    }
}

/// A shorter window at the front of a longer one.
pub proof fn lemma_has_at_front(s: Seq<char>, p: int, t: Seq<char>, u: Seq<char>)
    requires
        has_at(s, p, t + u),
    ensures
        has_at(s, p, t),
        has_at(s, p + t.len(), u),
{
    lemma_has_at_index(s, p, t + u);
    assert forall|i: int| 0 <= i < t.len() implies s.subrange(p, p + t.len())[i] == t[i] by {
        assert((t + u)[i] == t[i]);
    }
    assert(s.subrange(p, p + t.len()) =~= t);
    assert forall|i: int|
        0 <= i < u.len() implies s.subrange(p + t.len(), p + t.len() + u.len())[i] == u[i] by {
        assert((t + u)[t.len() + i] == u[i]);
        assert(s[p + t.len() + i] == (t + u)[t.len() + i]);
    }
    assert(s.subrange(p + t.len(), p + t.len() + u.len()) =~= u);
}

// ---------------------------------------------------------------------------
// Lexing over windows
// ---------------------------------------------------------------------------

/// Whitespace skipping stops right away on anything but whitespace and the
/// comment opener.
pub proof fn lemma_skip_here(s: Seq<char>, p: int)
    requires
        0 <= p < s.len(),
        !is_ws_char(s[p]),
        s[p] != ':',
    ensures
        skip_ws(s, p) == p,
{
}

/// A character that ends any identifier scan, whatever its state.
pub open spec fn is_tok_break(c: char) -> bool {
    !is_ident_cont_char(c) && c != '.'
}

/// `t` on its own lexes as exactly one identifier token.
pub open spec fn token_text(t: Seq<char>) -> bool {
    t.len() > 0 && starts_ident_tok(t[0]) && ident_end(t, 0) == t.len()
}

proof fn lemma_ident_from_window(
    s: Seq<char>,
    p: int,
    t: Seq<char>,
    k: int,
    hd: bool,
    nm: bool,
)
    requires
        has_at(s, p, t),
        1 <= k <= t.len(),
        ident_end_from(t, k, hd, nm) == t.len(),
        p + t.len() == s.len() || is_tok_break(s[p + t.len()]),
    ensures
        ident_end_from(s, p + k, hd, nm) == p + t.len(),
    decreases t.len() - k,
{
    lemma_has_at_index(s, p, t);
    if k < t.len() {
        if is_ident_cont_char(t[k]) {
            lemma_ident_from_window(s, p, t, k + 1, hd, nm && is_numericish_char(t[k]));
        } else if t[k] == '.' && !hd && nm {
            lemma_ident_from_window(s, p, t, k + 1, true, false);
        } else {
            assert(ident_end_from(t, k, hd, nm) == k);
            assert(false);
        }
    } else {
        assert(s[p + k - 1] == t[k - 1]);
        if p + t.len() < s.len() {
            assert(!is_ident_cont_char(s[p + k]) && s[p + k] != '.');
        }
    }
}

/// An identifier window lexes to exactly the `Key` token of its text.
pub proof fn lemma_next_tok_key(s: Seq<char>, p: int, t: Seq<char>)
    requires
        has_at(s, p, t),
        token_text(t),
        p + t.len() == s.len() || is_tok_break(s[p + t.len()]),
    ensures
        next_tok(s, p) == (SpecTok::Key(t), p + t.len()),
    decreases t.len(),
{
    lemma_has_at_index(s, p, t);
    assert(s[p] == t[0]);
    assert(!is_ws_char(s[p]) && s[p] != ':');
    lemma_skip_here(s, p);
    lemma_ident_from_window(s, p, t, 1, false, is_numericish_char(t[0]));
    assert(ident_end(s, p) == p + t.len());
    assert(s.subrange(p, p + t.len()) == t);
}

/// Text made of identifier characters is one token.
pub proof fn lemma_all_cont_token(t: Seq<char>)
    requires
        t.len() > 0,
        starts_ident_tok(t[0]),
        forall|i: int| 0 <= i < t.len() ==> is_ident_cont_char(#[trigger] t[i]),
    ensures
        token_text(t),
{
    lemma_all_cont_scan(t, 1, false, is_numericish_char(t[0]));
}

proof fn lemma_all_cont_scan(t: Seq<char>, k: int, hd: bool, nm: bool)
    requires
        1 <= k <= t.len(),
        forall|i: int| 0 <= i < t.len() ==> is_ident_cont_char(#[trigger] t[i]),
    ensures
        ident_end_from(t, k, hd, nm) == t.len(),
    decreases t.len() - k,
{
    if k < t.len() {
        lemma_all_cont_scan(t, k + 1, hd, nm && is_numericish_char(t[k]));
    }
}

// ---------------------------------------------------------------------------
// Raw content over windows
// ---------------------------------------------------------------------------

/// Raw text that a parenthesized read takes whole: scanning it followed by
/// a closing parenthesis consumes exactly the text.
pub open spec fn raw_ok(t: Seq<char>) -> bool {
    raw_end(t.push(')'), 0, 0) == Some(t.len() as int)
}

proof fn lemma_raw_from_window(s: Seq<char>, p: int, t: Seq<char>, i: int, d: int)
    requires
        has_at(s, p, t),
        p + t.len() < s.len(),
        s[p + t.len()] == ')',
        0 <= i <= t.len(),
        raw_end(t.push(')'), i, d) == Some(t.len() as int),
    ensures
        raw_end(s, p + i, d) == Some(p + t.len()),
    decreases t.len() - i,
{
    lemma_has_at_index(s, p, t);
    let tp = t.push(')');
    if i < t.len() {
        assert(tp[i] == t[i]);
        assert(s[p + i] == t[i]);
        if t[i] == ')' {
            if d == 0 {
                assert(raw_end(tp, i, d) == Some(i));
                assert(false);
            } else {
                lemma_raw_from_window(s, p, t, i + 1, d - 1);
            }
        } else if t[i] == '(' {
            lemma_raw_from_window(s, p, t, i + 1, d + 1);
        } else {
            lemma_raw_from_window(s, p, t, i + 1, d);
        }
    } else {
        assert(tp[i] == ')');
        if d != 0 {
            crate::lexer::lemma_raw_end_bounds(tp, i + 1, d - 1);
            assert(raw_end(tp, i, d) != Some(t.len() as int));
            assert(false);
        }
    }
}

/// A raw window followed by `)` is read back verbatim.
pub proof fn lemma_raw_window(s: Seq<char>, p: int, t: Seq<char>)
    requires
        has_at(s, p, t),
        raw_ok(t),
        p + t.len() < s.len(),
        s[p + t.len()] == ')',
    ensures
        raw_end(s, p, 0) == Some(p + t.len()),
{
    lemma_raw_from_window(s, p, t, 0, 0);
}

/// Text without parentheses is raw-safe.
pub proof fn lemma_paren_free_raw_ok(t: Seq<char>)
    requires
        forall|i: int| 0 <= i < t.len() ==> #[trigger] t[i] != '(' && t[i] != ')',
    ensures
        raw_ok(t),
{
    lemma_paren_free_scan(t, 0);
}

proof fn lemma_paren_free_scan(t: Seq<char>, i: int)
    requires
        0 <= i <= t.len(),
        forall|j: int| 0 <= j < t.len() ==> #[trigger] t[j] != '(' && t[j] != ')',
    ensures
        raw_end(t.push(')'), i, 0) == Some(t.len() as int),
    decreases t.len() - i,
{
    let tp = t.push(')');
    if i < t.len() {
        assert(tp[i] == t[i]);
        lemma_paren_free_scan(t, i + 1);
    } else {
        assert(tp[i] == ')');
    }
}


// ---------------------------------------------------------------------------
// Delimiters
// ---------------------------------------------------------------------------

/// A single-character structural token.
pub open spec fn is_delim_char(c: char) -> bool {
    c == '(' || c == ')' || c == '{' || c == '}' || c == '[' || c == ']' || c == '<' || c == '>'
}

/// The token of a structural character.
pub open spec fn delim_tok(c: char) -> SpecTok {
    if c == '(' {
        SpecTok::LParen
    } else if c == ')' {
        SpecTok::RParen
    } else if c == '{' {
        SpecTok::LBrace
    } else if c == '}' {
        SpecTok::RBrace
    } else if c == '[' {
        SpecTok::LBracket
    } else if c == ']' {
        SpecTok::RBracket
    } else if c == '<' {
        SpecTok::LAngle
    } else {
        SpecTok::RAngle
    }
}

pub proof fn lemma_next_tok_delim(s: Seq<char>, p: int)
    requires
        0 <= p < s.len(),
        is_delim_char(s[p]),
    ensures
        next_tok(s, p) == (delim_tok(s[p]), p + 1),
{
    lemma_skip_here(s, p);
}

// ---------------------------------------------------------------------------
// Scalar renderings parse back
// ---------------------------------------------------------------------------

/// The hint a scalar's rendering carries.
pub open spec fn scalar_hint(v: SpecValue) -> TypeHint {
    match v {
        SpecValue::I8(_) => TypeHint::I8,
        SpecValue::I16(_) => TypeHint::I16,
        SpecValue::I32(_) => TypeHint::I32,
        SpecValue::I64(_) => TypeHint::I64,
        SpecValue::U8(_) => TypeHint::U8,
        SpecValue::U16(_) => TypeHint::U16,
        SpecValue::U32(_) => TypeHint::U32,
        SpecValue::U64(_) => TypeHint::U64,
        SpecValue::F32(_) => TypeHint::F32,
        SpecValue::F64(_) => TypeHint::F64,
        SpecValue::Str(t) => TypeHint::Str(str_breakpoint(t.len() as int) as usize),
        SpecValue::Bool(_) => TypeHint::Bool,
        _ => TypeHint::Null,
    }
}

/// A scalar's code is its hint's canonical text, and lexes as one token.
pub proof fn lemma_scalar_code(v: SpecValue)
    requires
        is_simple(v),
    ensures
        scalar_code(v) == hint_text(scalar_hint(v)),
        token_text(scalar_code(v)),
        hint_of_text(scalar_code(v)) == Some(scalar_hint(v)),
{
    match v {
        SpecValue::Str(t) => {
            let bp = str_breakpoint(t.len() as int);
            assert(scalar_code(v) =~= hint_text(TypeHint::Str(bp as usize)));
        },
        _ => {
            assert(scalar_code(v) =~= hint_text(scalar_hint(v)));
        },
    }
    let code = hint_text(scalar_hint(v));
    match scalar_hint(v) {
        TypeHint::Str(n) => {
            lemma_dec_text_digits(n as int);
            assert forall|i: int| 0 <= i < code.len() implies is_ident_cont_char(
                #[trigger] code[i],
            ) by {
                if i > 0 {
                    assert(code[i] == dec_text(n as int)[i - 1]);
                }
            }
            lemma_all_cont_token(code);
        },
        _ => {
            assert forall|i: int| 0 <= i < code.len() implies is_ident_cont_char(
                #[trigger] code[i],
            ) by {
                lemma_code_shapes();
            }
            lemma_all_cont_token(code);
        },
    }
    law_hint_code_roundtrip(scalar_hint(v));
}

/// A scalar's body converts back under its own hint.
pub proof fn lemma_scalar_conv(v: SpecValue)
    requires
        is_simple(v),
        wf(v),
        v matches SpecValue::Str(t) ==> t.len() <= 1024,
    ensures
        hint_conv(scalar_hint(v), scalar_body(v)) == Some(v),
{
    match v {
        SpecValue::I8(n) => {
            lemma_int_text_roundtrip(n);
        },
        SpecValue::I16(n) => {
            lemma_int_text_roundtrip(n);
        },
        SpecValue::I32(n) => {
            lemma_int_text_roundtrip(n);
        },
        SpecValue::I64(n) => {
            lemma_int_text_roundtrip(n);
        },
        SpecValue::U8(n) => {
            lemma_int_text_roundtrip(n);
            assert(int_text(n) == dec_text(n));
            lemma_dec_text_digits(n);
        },
        SpecValue::U16(n) => {
            lemma_int_text_roundtrip(n);
            assert(int_text(n) == dec_text(n));
            lemma_dec_text_digits(n);
        },
        SpecValue::U32(n) => {
            lemma_int_text_roundtrip(n);
            assert(int_text(n) == dec_text(n));
            lemma_dec_text_digits(n);
        },
        SpecValue::U64(n) => {
            lemma_int_text_roundtrip(n);
            assert(int_text(n) == dec_text(n));
            lemma_dec_text_digits(n);
        },
        _ => {},
    }
}

proof fn lemma_digits_end_digits(s: Seq<char>, i: int, hi: int)
    requires
        0 <= i <= hi <= s.len(),
    ensures
        forall|j: int| i <= j < digits_end(s, i, hi) ==> is_digit_char(#[trigger] s[j]),
        i <= digits_end(s, i, hi) <= hi,
    decreases hi - i,
{
    if i < hi && is_digit_char(s[i]) {
        lemma_digits_end_digits(s, i + 1, hi);
    }
}

proof fn lemma_e_pos_bounds(s: Seq<char>, i: int, hi: int)
    requires
        0 <= i <= hi <= s.len(),
    ensures
        i <= e_pos(s, i, hi) <= hi,
        forall|j: int|
            i <= j < e_pos(s, i, hi) ==> #[trigger] s[j] != 'e' && s[j] != 'E',
        e_pos(s, i, hi) < hi ==> (s[e_pos(s, i, hi)] == 'e' || s[e_pos(s, i, hi)] == 'E'),
    decreases hi - i,
{
    if i < hi && !(s[i] == 'e' || s[i] == 'E') {
        lemma_e_pos_bounds(s, i + 1, hi);
    }
}

proof fn lemma_mantissa_no_paren(s: Seq<char>, lo: int, hi: int, j: int)
    requires
        mantissa_ok(s, lo, hi),
        lo <= j < hi,
    ensures
        s[j] != '(' && s[j] != ')',
{
    lemma_digits_end_digits(s, lo, hi);
    let d = digits_end(s, lo, hi);
    if j < d {
        assert(is_digit_char(s[j]));
    } else if j == d {
        assert(s[d] == '.');
    } else {
        assert(is_digit_char(s[j]));
    }
}

/// A float literal holds no parenthesis, so it reads back whole from raw
/// parenthesized content.
pub proof fn lemma_float_text_raw_ok(t: Seq<char>)
    requires
        is_float_text(t),
    ensures
        raw_ok(t),
{
    let lo: int = if t.len() > 0 && (t[0] == '+' || t[0] == '-') {
        1
    } else {
        0
    };
    let hi = t.len() as int;
    assert forall|j: int| 0 <= j < t.len() implies #[trigger] t[j] != '(' && t[j] != ')' by {
        if j < lo {
            assert(t[j] == '+' || t[j] == '-');
        } else if inf_nan_ok(t, lo, hi) {
            assert(crate::numtext::lower_c('(') == '(');
            assert(crate::numtext::lower_c(')') == ')');
            assert(crate::numtext::lower_c(t[j]) != '(' ==> t[j] != '(');
        } else {
            let k = e_pos(t, lo, hi);
            lemma_e_pos_bounds(t, lo, hi);
            if k == hi {
                lemma_mantissa_no_paren(t, lo, hi, j);
            } else {
                if j < k {
                    lemma_mantissa_no_paren(t, lo, k, j);
                } else if j == k {
                } else {
                    assert(exp_ok(t, k + 1, hi));
                    let l2: int = if t[k + 1] == '+' || t[k + 1] == '-' {
                        k + 2
                    } else {
                        k + 1
                    };
                    if j >= l2 {
                        assert(is_digit_char(t[j]));
                    }
                }
            }
        }
    }
    lemma_paren_free_raw_ok(t);
}

/// A scalar's body reads back whole as raw parenthesized content.
pub proof fn lemma_scalar_body_raw(v: SpecValue)
    requires
        is_simple(v),
        wf(v),
        v matches SpecValue::Str(t) ==> raw_ok(t),
    ensures
        raw_ok(scalar_body(v)),
{
    match v {
        SpecValue::Str(_) => {},
        SpecValue::F32(t) => {
            lemma_float_text_raw_ok(t);
        },
        SpecValue::F64(t) => {
            lemma_float_text_raw_ok(t);
        },
        SpecValue::U8(n) => {
            lemma_dec_paren_free(n);
        },
        SpecValue::U16(n) => {
            lemma_dec_paren_free(n);
        },
        SpecValue::U32(n) => {
            lemma_dec_paren_free(n);
        },
        SpecValue::U64(n) => {
            lemma_dec_paren_free(n);
        },
        SpecValue::I8(n) => {
            lemma_int_paren_free(n);
        },
        SpecValue::I16(n) => {
            lemma_int_paren_free(n);
        },
        SpecValue::I32(n) => {
            lemma_int_paren_free(n);
        },
        SpecValue::I64(n) => {
            lemma_int_paren_free(n);
        },
        _ => {
            lemma_paren_free_raw_ok(scalar_body(v));
        },
    }
}

proof fn lemma_dec_paren_free(n: int)
    requires
        n >= 0,
    ensures
        raw_ok(dec_text(n)),
{
    lemma_dec_text_digits(n);
    assert forall|i: int| 0 <= i < dec_text(n).len() implies #[trigger] dec_text(n)[i] != '('
        && dec_text(n)[i] != ')' by {
        assert(is_digit_char(dec_text(n)[i]));
    }
    lemma_paren_free_raw_ok(dec_text(n));
}

proof fn lemma_int_paren_free(n: int)
    ensures
        raw_ok(int_text(n)),
{
    if n >= 0 {
        lemma_dec_paren_free(n);
    } else {
        lemma_dec_text_digits(-n);
        let t = int_text(n);
        assert forall|i: int| 0 <= i < t.len() implies #[trigger] t[i] != '(' && t[i] != ')' by {
            if i > 0 {
                assert(t[i] == dec_text(-n)[i - 1]);
                assert(is_digit_char(t[i]));
            }
        }
        lemma_paren_free_raw_ok(t);
    }
}

/// A compact scalar rendering `<code>(body)` parses back to exactly the
/// scalar it came from.
pub proof fn lemma_rt_scalar(s: Seq<char>, p: int, v: SpecValue)
    requires
        is_simple(v),
        wf(v),
        v matches SpecValue::Str(t) ==> raw_ok(t) && t.len() <= 1024,
        has_at(s, p, ser_scalar(v)),
        clean_after(s, p + ser_scalar(v).len()),
    ensures
        sp_typed_scalar(s, p) == Some((v, p + ser_scalar(v).len())),
{
    let code = scalar_code(v);
    let body = scalar_body(v);
    let full = ser_scalar(v);
    lemma_scalar_code(v);
    lemma_scalar_conv(v);
    lemma_scalar_body_raw(v);
    // positions of the pieces
    assert(full =~= seq!['<'] + (code + (seq!['>', '('] + (body + seq![')']))));
    lemma_has_at_front(s, p, seq!['<'], code + (seq!['>', '('] + (body + seq![')'])));
    lemma_has_at_front(s, p + 1, code, seq!['>', '('] + (body + seq![')']));
    let pc = p + 1 + code.len();
    lemma_has_at_front(s, pc, seq!['>', '('], body + seq![')']);
    let pb = pc + 2;
    lemma_has_at_front(s, pb, body, seq![')']);
    let pe = pb + body.len();
    lemma_has_at_index(s, p, seq!['<']);
    assert(s[p + 0] == seq!['<'][0]);
    assert(s[p] == '<');
    lemma_has_at_index(s, pc, seq!['>', '(']);
    assert(s[pc + 0] == seq!['>', '('][0]);
    assert(s[pc] == '>');
    assert(s[pc + 1] == '(');
    lemma_has_at_index(s, pe, seq![')']);
    assert(s[pe + 0] == seq![')'][0]);
    assert(s[pe] == ')');
    // the hint
    lemma_next_tok_delim(s, p);
    lemma_next_tok_key(s, p + 1, code);
    lemma_next_tok_delim(s, pc);
    lemma_next_tok_delim(s, pc + 1);
    assert(next_tok(s, p) == (SpecTok::LAngle, p + 1));
    assert(next_tok(s, pc) == (SpecTok::RAngle, pc + 1));
    assert(next_tok(s, pc + 1) == (SpecTok::LParen, pc + 2));
    assert(clean_after(s, pc + 1));
    assert(sp_hint(s, p) == Some((scalar_hint(v), pc + 1)));
    // the raw body
    lemma_raw_window(s, pb, body);
    assert(raw_end(s, pb, 0) == Some(pe));
    assert(s.subrange(pb, pe) == body);
    assert(pe + 1 == p + full.len());
    assert(sp_typed_content(s, pb, scalar_hint(v)) == Some((v, pe + 1)));
    assert(sp_typed_scalar(s, p) == Some((v, p + full.len())));
}

/// The concrete characters of every fixed hint code.
proof fn lemma_code_shapes()
    ensures
        hint_text(TypeHint::I8).len() == 2 && hint_text(TypeHint::I8)[0] == 'i' && hint_text(
            TypeHint::I8,
        )[1] == '8',
        hint_text(TypeHint::I16).len() == 3 && hint_text(TypeHint::I16)[0] == 'i' && hint_text(
            TypeHint::I16,
        )[1] == '1',
        hint_text(TypeHint::I32).len() == 3 && hint_text(TypeHint::I32)[0] == 'i' && hint_text(
            TypeHint::I32,
        )[1] == '3',
        hint_text(TypeHint::I64).len() == 3 && hint_text(TypeHint::I64)[0] == 'i' && hint_text(
            TypeHint::I64,
        )[1] == '6',
        hint_text(TypeHint::U8).len() == 2 && hint_text(TypeHint::U8)[0] == 'u' && hint_text(
            TypeHint::U8,
        )[1] == '8',
        hint_text(TypeHint::U16).len() == 3 && hint_text(TypeHint::U16)[0] == 'u' && hint_text(
            TypeHint::U16,
        )[1] == '1',
        hint_text(TypeHint::U32).len() == 3 && hint_text(TypeHint::U32)[0] == 'u' && hint_text(
            TypeHint::U32,
        )[1] == '3',
        hint_text(TypeHint::U64).len() == 3 && hint_text(TypeHint::U64)[0] == 'u' && hint_text(
            TypeHint::U64,
        )[1] == '6',
        hint_text(TypeHint::F32).len() == 3 && hint_text(TypeHint::F32)[0] == 'f',
        hint_text(TypeHint::F64).len() == 3 && hint_text(TypeHint::F64)[0] == 'f' && hint_text(
            TypeHint::F64,
        )[1] == '6',
        hint_text(TypeHint::Bool).len() == 1 && hint_text(TypeHint::Bool)[0] == 'b',
        hint_text(TypeHint::Null).len() == 1 && hint_text(TypeHint::Null)[0] == 'n',
{
}

/// Every type hint's canonical code parses back to that hint:
/// `TypeHint::from_str` inverts `TypeHint::as_str` on every variant.
pub proof fn law_hint_code_roundtrip(h: TypeHint)
    ensures
        hint_of_text(hint_text(h)) == Some(h),
{
    lemma_code_shapes();
    match h {
        TypeHint::Str(n) => {
            let t = hint_text(h);
            lemma_dec_text_digits(n as int);
            assert(t[0] == 's');
            assert(t.skip(1) =~= dec_text(n as int));
            lemma_int_text_roundtrip(n as int);
            assert(int_text(n as int) == dec_text(n as int));
            assert(int_of_text(t.skip(1)) == Some(n as int));
            assert(t.len() > 1 && t[1] == dec_text(n as int)[0]);
            assert(t[1] != '-');
            assert(hint_of_text(hint_text(h)) == Some(h));
        },
        _ => {
            assert(hint_of_text(hint_text(h)) == Some(h));
        },
    }
}

// ---------------------------------------------------------------------------
// The compact round trip
// ---------------------------------------------------------------------------

/// A value tree whose compact rendering parses back to it. Beyond
/// well-formedness this asks that string text reads back whole from
/// parentheses and stays within the largest length code, object keys lex
/// as single tokens, arrays do not directly contain arrays (an array
/// element in brackets has no production), and an array in value position
/// is not homogeneous (the typed shorthand it would serialize to has no
/// top-level production). `elem` says the value stands at top level or as
/// an array element rather than in an object field.
pub open spec fn round_trippable(v: SpecValue, elem: bool) -> bool
    decreases v,
{
    wf(v) && match v {
        SpecValue::Str(t) => raw_ok(t) && t.len() <= 1024,
        SpecValue::Object(ps) => forall|i: int|
            0 <= i < ps.len() ==> token_text(#[trigger] ps[i].0) && round_trippable(
                ps[i].1,
                false,
            ),
        SpecValue::Array(xs) => (elem ==> !homogeneous(xs)) && (forall|i: int|
            0 <= i < xs.len() ==> !(#[trigger] xs[i] is Array) && round_trippable(xs[i], true)),
        _ => true,
    }
}

/// Fields taken in sorted order insert at the end, never colliding.
proof fn lemma_sorted_prefix_insert(all: Seq<(Seq<char>, SpecValue)>, i: int)
    requires
        obj_keys_sorted(all),
        0 <= i < all.len(),
    ensures
        !obj_has_key(all.take(i), all[i].0),
        obj_insert(all.take(i), all[i].0, all[i].1) =~= all.take(i + 1),
{
    let acc = all.take(i);
    let k = all[i].0;
    assert forall|j: int| 0 <= j < acc.len() implies seq_lt(#[trigger] acc[j].0, k) by {
        assert(acc[j] == all[j]);
    }
    if obj_has_key(acc, k) {
        let j = choose|j: int| 0 <= j < acc.len() && acc[j].0 == k;
        crate::text::lemma_seq_lt_connected(acc[j].0, k);
        assert(false);
    }
    lemma_insert_pos_all_lt(acc, k, 0);
    let out = obj_insert(acc, k, all[i].1);
    acc.insert_ensures(i, (k, all[i].1));
    assert forall|j: int| 0 <= j < i + 1 implies out[j] == all.take(i + 1)[j] by {
        if j < i {
            assert(out[j] == acc[j]);
            assert(acc[j] == all[j]);
        } else {
            assert(out[j] == (k, all[i].1));
        }
    }
}

/// The first character of a field value's rendering breaks a key token.
proof fn lemma_field_val_first(v: SpecValue, ind: int)
    ensures
        ser_field_val(v, false, ind).len() > 0,
        ser_field_val(v, false, ind)[0] == '<' || ser_field_val(v, false, ind)[0] == '{'
            || ser_field_val(v, false, ind)[0] == '[',
{
    match v {
        SpecValue::Object(ps) => {
            if ps.len() == 0 {
            } else {
                assert(ser_obj(ps, false, deeper(ind))[0] == '{');
            }
        },
        SpecValue::Array(xs) => {
            if xs.len() == 0 {
            } else {
                assert(ser_arr_generic(xs, false, deeper(ind))[0] == '[');
            }
        },
        _ => {
            assert(ser_scalar(v)[0] == '<');
        },
    }
}

/// The first character of a non-array element's rendering.
proof fn lemma_elem_first(v: SpecValue, ind: int)
    requires
        !(v is Array),
    ensures
        ser_value(v, false, ind).len() > 0,
        ser_value(v, false, ind)[0] == '<' || ser_value(v, false, ind)[0] == '{',
{
    match v {
        SpecValue::Object(ps) => {
            if ps.len() == 0 {
            } else {
                assert(ser_obj(ps, false, ind)[0] == '{');
            }
        },
        _ => {
            assert(ser_scalar(v)[0] == '<');
        },
    }
}

/// A position holding `}`, `]`, or a token-starting character is clean.
proof fn lemma_clean_at(s: Seq<char>, q: int)
    requires
        0 <= q < s.len(),
        is_delim_char(s[q]) || starts_ident_tok(s[q]),
    ensures
        clean_after(s, q),
{
    lemma_skip_here(s, q);
}

/// The rendering of a round-trippable value parses back to it
/// (value position: top level or array element).
#[verifier::rlimit(100)]
#[verifier::spinoff_prover]
proof fn lemma_rt_value(s: Seq<char>, p: int, v: SpecValue, ind: int)
    requires
        round_trippable(v, true),
        has_at(s, p, ser_value(v, false, ind)),
        clean_after(s, p + ser_value(v, false, ind).len()),
    ensures
        sp_value(s, p) == Some((v, p + ser_value(v, false, ind).len())),
    decreases v, 0int,
{
    let full = ser_value(v, false, ind);
    lemma_has_at_index(s, p, full);
    match v {
        SpecValue::Object(ps) => {
            lemma_rt_object(s, p, ps, ind);
            assert(s[p + 0] == full[0]);
            lemma_next_tok_delim(s, p);
        },
        SpecValue::Array(xs) => {
            assert(!homogeneous(xs));
            assert(full == ser_arr_plain(xs, false, ind));
            lemma_rt_arr_plain(s, p, xs, ind);
            assert(s[p + 0] == full[0]);
            if xs.len() == 0 {
                assert(full[0] == '[');
            } else {
                assert(ser_arr_generic(xs, false, ind)[0] == '[');
            }
            lemma_next_tok_delim(s, p);
        },
        _ => {
            lemma_rt_scalar(s, p, v);
            assert(s[p + 0] == full[0]);
            assert(ser_scalar(v)[0] == '<');
            lemma_next_tok_delim(s, p);
        },
    }
}

/// The rendering of a round-trippable field value parses back to it
/// (object-field position, after the key).
#[verifier::rlimit(100)]
#[verifier::spinoff_prover]
proof fn lemma_rt_field_val(s: Seq<char>, p: int, v: SpecValue, ind: int)
    requires
        round_trippable(v, false),
        has_at(s, p, ser_field_val(v, false, ind)),
        clean_after(s, p + ser_field_val(v, false, ind).len()),
    ensures
        sp_cont(s, p) == Some((v, p + ser_field_val(v, false, ind).len())),
    decreases v, 0int,
{
    let full = ser_field_val(v, false, ind);
    lemma_has_at_index(s, p, full);
    match v {
        SpecValue::Object(ps) => {
            lemma_rt_object(s, p, ps, deeper(ind));
            assert(s[p + 0] == full[0]);
            if ps.len() == 0 {
                assert(full[0] == '{');
            } else {
                assert(ser_obj(ps, false, deeper(ind))[0] == '{');
            }
            lemma_next_tok_delim(s, p);
        },
        SpecValue::Array(xs) => {
            lemma_rt_arr_plain(s, p, xs, deeper(ind));
            assert(s[p + 0] == full[0]);
            if xs.len() == 0 {
                assert(full[0] == '[');
            } else {
                assert(ser_arr_generic(xs, false, deeper(ind))[0] == '[');
            }
            lemma_next_tok_delim(s, p);
        },
        _ => {
            lemma_rt_scalar(s, p, v);
            assert(s[p + 0] == full[0]);
            assert(ser_scalar(v)[0] == '<');
            lemma_next_tok_delim(s, p);
        },
    }
}

/// The rendering of an object parses back to it.
proof fn lemma_rt_object(s: Seq<char>, p: int, ps: Seq<(Seq<char>, SpecValue)>, ind: int)
    requires
        round_trippable(SpecValue::Object(ps), false),
        has_at(s, p, ser_obj(ps, false, ind)),
        clean_after(s, p + ser_obj(ps, false, ind).len()),
    ensures
        sp_object(s, p) == Some((SpecValue::Object(ps), p + ser_obj(ps, false, ind).len())),
    decreases ps, ps.len() + 1,
{
    let full = ser_obj(ps, false, ind);
    lemma_has_at_index(s, p, full);
    if ps.len() == 0 {
        assert(full =~= seq!['{', '}']);
        assert(s[p + 0] == '{');
        assert(s[p + 1] == '}');
        lemma_next_tok_delim(s, p);
        lemma_next_tok_delim(s, p + 1);
        assert(next_tok(s, p) == (SpecTok::LBrace, p + 1));
        assert(next_tok(s, p + 1) == (SpecTok::RBrace, p + 2));
        assert(sp_fields(s, p + 1, Seq::empty()) == Some((
            Seq::<(Seq<char>, SpecValue)>::empty(),
            p + 2,
        )));
        assert(Seq::<(Seq<char>, SpecValue)>::empty() =~= ps);
    } else {
        let body = ser_fields(ps, false, ind, true);
        assert(full =~= seq!['{'] + (body + seq!['}']));
        lemma_has_at_front(s, p, seq!['{'], body + seq!['}']);
        lemma_has_at_index(s, p, seq!['{']);
        assert(s[p + 0] == seq!['{'][0]);
        lemma_next_tok_delim(s, p);
        assert(ps.skip(0) =~= ps);
        assert(ps.take(0) =~= Seq::<(Seq<char>, SpecValue)>::empty());
        lemma_rt_fields(s, p + 1, ps, 0, ind);
    }
}

/// The field renderings from index `i` on, followed by the closing brace,
/// drive `sp_fields` from the sorted prefix to the whole field list.
proof fn lemma_rt_fields(s: Seq<char>, p: int, all: Seq<(Seq<char>, SpecValue)>, i: int, ind: int)
    requires
        round_trippable(SpecValue::Object(all), false),
        0 <= i <= all.len(),
        has_at(s, p, ser_fields(all.skip(i), false, ind, i == 0) + seq!['}']),
        clean_after(s, p + ser_fields(all.skip(i), false, ind, i == 0).len() + 1),
    ensures
        sp_fields(s, p, all.take(i)) == Some((
            all,
            p + ser_fields(all.skip(i), false, ind, i == 0).len() + 1,
        )),
    decreases all, all.len() - i,
{
    let rem = all.skip(i);
    let body = ser_fields(rem, false, ind, i == 0);
    if i == all.len() {
        assert(rem.len() == 0);
        assert(body =~= Seq::<char>::empty());
        assert(body + seq!['}'] =~= seq!['}']);
        lemma_has_at_index(s, p, seq!['}']);
        assert(s[p + 0] == seq!['}'][0]);
        lemma_next_tok_delim(s, p);
        assert(next_tok(s, p) == (SpecTok::RBrace, p + 1));
        assert(all.take(i) =~= all);
    } else {
        assert(rem[0] == all[i]);
        assert(rem.skip(1) =~= all.skip(i + 1));
        let key = all[i].0;
        let fv = ser_field_val(all[i].1, false, ind);
        let rest = ser_fields(all.skip(i + 1), false, ind, false);
        assert(body == key + fv + rest);
        assert(body + seq!['}'] =~= key + (fv + (rest + seq!['}'])));
        lemma_has_at_front(s, p, key, fv + (rest + seq!['}']));
        let pf = p + key.len();
        lemma_has_at_front(s, pf, fv, rest + seq!['}']);
        let pr = pf + fv.len();
        lemma_has_at_front(s, pr, rest, seq!['}']);
        assert(token_text(key));
        lemma_field_val_first(all[i].1, ind);
        lemma_has_at_index(s, pf, fv);
        assert(s[pf + 0] == fv[0]);
        assert(is_tok_break(fv[0]));
        lemma_next_tok_key(s, p, key);
        // the value after the key
        if all.skip(i + 1).len() == 0 {
            assert(rest =~= Seq::<char>::empty());
            lemma_has_at_index(s, pr, seq!['}']);
            assert(s[pr + 0] == seq!['}'][0]);
            lemma_clean_at(s, pr);
        } else {
            let rem1 = all.skip(i + 1);
            assert(rest == rem1[0].0 + ser_field_val(rem1[0].1, false, ind) + ser_fields(
                rem1.skip(1),
                false,
                ind,
                false,
            ));
            assert(rem1[0] == all[i + 1]);
            assert(token_text(all[i + 1].0));
            lemma_has_at_index(s, pr, rest);
            assert(s[pr + 0] == rest[0]);
            assert(rest[0] == all[i + 1].0[0]);
            lemma_clean_at(s, pr);
        }
        proof_decreases_field(all, i);
        lemma_rt_field_val(s, pf, all[i].1, ind);
        assert(sp_cont(s, pf) == Some((all[i].1, pr)));
        lemma_sorted_prefix_insert(all, i);
        lemma_rt_fields(s, pr, all, i + 1, ind);
        assert(sp_fields(s, pr, all.take(i + 1)) == Some((all, pr + rest.len() + 1)));
        assert(obj_insert(all.take(i), key, all[i].1) == all.take(i + 1));
        assert(pr + rest.len() + 1 == p + body.len() + 1);
        assert(sp_fields(s, p, all.take(i)) == Some((all, p + body.len() + 1)));
    }
}

/// A field's value is a part of the field list, for the termination order.
proof fn proof_decreases_field(all: Seq<(Seq<char>, SpecValue)>, i: int)
    requires
        0 <= i < all.len(),
    ensures
        decreases_to!(all => all[i].1),
{
    assert(decreases_to!(all => all[i]));
}

/// The rendering of a non-typed array parses back to it.
proof fn lemma_rt_arr_plain(s: Seq<char>, p: int, xs: Seq<SpecValue>, ind: int)
    requires
        wf(SpecValue::Array(xs)),
        forall|i: int|
            0 <= i < xs.len() ==> !(#[trigger] xs[i] is Array) && round_trippable(xs[i], true),
        has_at(s, p, ser_arr_plain(xs, false, ind)),
        clean_after(s, p + ser_arr_plain(xs, false, ind).len()),
    ensures
        sp_array(s, p) == Some((SpecValue::Array(xs), p + ser_arr_plain(xs, false, ind).len())),
    decreases xs, xs.len() + 1,
{
    let full = ser_arr_plain(xs, false, ind);
    lemma_has_at_index(s, p, full);
    if xs.len() == 0 {
        assert(full =~= seq!['[', ']']);
        assert(s[p + 0] == '[');
        assert(s[p + 1] == ']');
        lemma_next_tok_delim(s, p);
        lemma_next_tok_delim(s, p + 1);
        assert(sp_items(s, p + 1, Seq::empty()) == Some((Seq::<SpecValue>::empty(), p + 2)));
        assert(Seq::<SpecValue>::empty() =~= xs);
    } else {
        let body = ser_elems(xs, false, ind);
        assert(full =~= seq!['['] + (body + seq![']']));
        lemma_has_at_front(s, p, seq!['['], body + seq![']']);
        lemma_has_at_index(s, p, seq!['[']);
        assert(s[p + 0] == seq!['['][0]);
        lemma_next_tok_delim(s, p);
        assert(xs.skip(0) =~= xs);
        assert(xs.take(0) =~= Seq::<SpecValue>::empty());
        lemma_rt_items(s, p + 1, xs, 0, ind);
    }
}

/// The element renderings from index `i` on, followed by the closing
/// bracket, drive `sp_items` from the prefix to the whole element list.
proof fn lemma_rt_items(s: Seq<char>, p: int, all: Seq<SpecValue>, i: int, ind: int)
    requires
        wf(SpecValue::Array(all)),
        forall|j: int|
            0 <= j < all.len() ==> !(#[trigger] all[j] is Array) && round_trippable(all[j], true),
        0 <= i <= all.len(),
        has_at(s, p, ser_elems(all.skip(i), false, ind) + seq![']']),
        clean_after(s, p + ser_elems(all.skip(i), false, ind).len() + 1),
    ensures
        sp_items(s, p, all.take(i)) == Some((
            all,
            p + ser_elems(all.skip(i), false, ind).len() + 1,
        )),
    decreases all, all.len() - i,
{
    let rem = all.skip(i);
    let body = ser_elems(rem, false, ind);
    if i == all.len() {
        assert(rem.len() == 0);
        assert(body =~= Seq::<char>::empty());
        assert(body + seq![']'] =~= seq![']']);
        lemma_has_at_index(s, p, seq![']']);
        assert(s[p + 0] == seq![']'][0]);
        lemma_next_tok_delim(s, p);
        assert(all.take(i) =~= all);
    } else {
        assert(rem[0] == all[i]);
        assert(rem.skip(1) =~= all.skip(i + 1));
        let ev = ser_value(all[i], false, deeper(ind));
        let rest = ser_elems(all.skip(i + 1), false, ind);
        assert(body == ev + rest);
        assert(body + seq![']'] =~= ev + (rest + seq![']']));
        lemma_has_at_front(s, p, ev, rest + seq![']']);
        let pr = p + ev.len();
        lemma_has_at_front(s, pr, rest, seq![']']);
        lemma_elem_first(all[i], deeper(ind));
        // the boundary after this element is clean
        if all.skip(i + 1).len() == 0 {
            assert(rest =~= Seq::<char>::empty());
            lemma_has_at_index(s, pr, seq![']']);
            assert(s[pr + 0] == seq![']'][0]);
            lemma_clean_at(s, pr);
        } else {
            let rem1 = all.skip(i + 1);
            assert(rest == ser_value(rem1[0], false, deeper(ind)) + ser_elems(
                rem1.skip(1),
                false,
                ind,
            ));
            assert(rem1[0] == all[i + 1]);
            lemma_elem_first(all[i + 1], deeper(ind));
            lemma_has_at_index(s, pr, rest);
            assert(s[pr + 0] == rest[0]);
            assert(rest[0] == ser_value(all[i + 1], false, deeper(ind))[0]);
            lemma_clean_at(s, pr);
        }
        // this element parses
        lemma_has_at_index(s, p, ev);
        assert(s[p + 0] == ev[0]);
        match all[i] {
            SpecValue::Object(ps) => {
                lemma_rt_object(s, p, ps, deeper(ind));
                lemma_next_tok_delim(s, p);
                assert(next_tok(s, p).0 is LBrace);
                assert(sp_object(s, p) == Some((all[i], pr)));
            },
            _ => {
                lemma_rt_scalar(s, p, all[i]);
                lemma_next_tok_delim(s, p);
                assert(next_tok(s, p).0 is LAngle);
                assert(sp_typed_scalar(s, p) == Some((all[i], pr)));
            },
        }
        lemma_rt_items(s, pr, all, i + 1, ind);
        assert(all.take(i).push(all[i]) =~= all.take(i + 1));
        assert(pr + rest.len() + 1 == p + body.len() + 1);
    }
}

/// Round trip: the compact rendering of every round-trippable value tree
/// parses back to exactly that tree. Such a tree is its own canonical form
/// (its objects are sorted), so the rendering here is exactly what
/// `to_string` returns for it. (A tree with a string beyond 1024
/// characters, with unbalanced parentheses in a string, with an array
/// directly inside an array, or with a homogeneous scalar array in value
/// position serializes to text that the grammar reads differently, so
/// those stay outside `round_trippable`.)
pub proof fn law_compact_round_trip(v: SpecValue)
    requires
        round_trippable(v, true),
    ensures
        sp_document(ser_value(v, false, 0)) == Some(v),
        crate::value::normalize(v) == v,
{
    crate::value::lemma_normalize_id(v);
    let s = ser_value(v, false, 0);
    assert(s.subrange(0, s.len() as int) =~= s);
    assert(has_at(s, 0, s));
    assert(skip_ws(s, s.len() as int) == s.len());
    assert(next_tok(s, s.len() as int).0 is Eof);
    assert(clean_after(s, s.len() as int));
    lemma_rt_value(s, 0, v, 0);
}

/// Idempotence: serializing, parsing, and serializing again gives the same
/// compact text.
pub proof fn law_compact_idempotent(v: SpecValue)
    requires
        round_trippable(v, true),
    ensures
        ser_value(sp_document(ser_value(v, false, 0))->Some_0, false, 0) == ser_value(
            v,
            false,
            0,
        ),
        crate::value::normalize(sp_document(ser_value(v, false, 0))->Some_0) == sp_document(
            ser_value(v, false, 0),
        )->Some_0,
{
    law_compact_round_trip(v);
}

} // verus!

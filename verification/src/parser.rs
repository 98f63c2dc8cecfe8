//! The GBLN parser: recursive descent over the token stream, with raw
//! character reads for parenthesized content.
//!
//! The grammar is stated as recursive specification functions over the input
//! characters (`sp_document` and its productions); the executable parser
//! returns exactly what the specification gives, so success, failure, and
//! the parsed tree are all pinned down.

use vstd::prelude::*;
use crate::error::{Error, ErrorKind};
use crate::lexer::{
    next_tok, raw_end, tok_view, Lexer, SpecTok, Token,
};
use crate::numtext::{int_of_text, is_float_text};
use crate::text::seq_lt;
use crate::types::{
    hint_conv, hint_of_text, is_false_text, is_null_text, is_true_text, TypeHint,
};
use crate::value::{
    insert_pos, insert_pos_from, lemma_insert_pos_from, lemma_obj_insert_sorted,
    lemma_sorted_key_at_pos, lemma_sv_pairs_insert, obj_has_key, obj_insert, obj_keys_sorted, sv,
    sv_pairs, wf, SpecValue, Value,
};

verus! {

// ---------------------------------------------------------------------------
// Type inference for untyped scalars
// ---------------------------------------------------------------------------

/// The value inferred for raw text without a type hint: null, a boolean, a
/// 64-bit signed integer, a 64-bit float, or (failing all of those) a
/// string of unlimited length.
pub open spec fn infer_of(t: Seq<char>) -> SpecValue {
    if is_null_text(t) {
        SpecValue::Null
    } else if is_true_text(t) {
        SpecValue::Bool(true)
    } else if is_false_text(t) {
        SpecValue::Bool(false)
    } else {
        match int_of_text(t) {
            Some(n) => if i64::MIN <= n <= i64::MAX {
                SpecValue::I64(n)
            } else {
                infer_fallback(t)
            },
            None => infer_fallback(t),
        }
    }
}

/// The non-integer fallback of inference: float text, else a string.
pub open spec fn infer_fallback(t: Seq<char>) -> SpecValue {
    if is_float_text(t) {
        SpecValue::F64(t)
    } else {
        SpecValue::Str(t)
    }
}

// ---------------------------------------------------------------------------
// Grammar productions
// ---------------------------------------------------------------------------
//
// Each production takes the raw character position `p` where its first token
// starts (whitespace still unskipped) and yields the parsed model value and
// the position just after its last consumed character, or `None` on any
// error. A production whose caller does not immediately read a token at the
// returned position demands `clean_after` there, since the parser always
// holds one token of lookahead.

/// No lexically broken token starts at `r`.
pub open spec fn clean_after(s: Seq<char>, r: int) -> bool {
    !(next_tok(s, r).0 is Bad)
}

/// `<code>` — a type hint between angle brackets.
pub open spec fn sp_hint(s: Seq<char>, p: int) -> Option<(TypeHint, int)> {
    let (t1, q1) = next_tok(s, p);
    if !(t1 is LAngle) {
        None
    } else {
        let (t2, q2) = next_tok(s, q1);
        match t2 {
            SpecTok::Key(h) => {
                let (t3, q3) = next_tok(s, q2);
                if t3 is RAngle && clean_after(s, q3) {
                    match hint_of_text(h) {
                        Some(hint) => Some((hint, q3)),
                        None => None,
                    }
                } else {
                    None
                }
            },
            _ => None,
        }
    }
}

/// Raw parenthesized content from `q` (just after the `(`), inferred.
pub open spec fn sp_raw_infer(s: Seq<char>, q: int) -> Option<(SpecValue, int)> {
    match raw_end(s, q, 0) {
        Some(e) => if clean_after(s, e + 1) {
            Some((infer_of(s.subrange(q, e)), e + 1))
        } else {
            None
        },
        None => None,
    }
}

/// Raw parenthesized content from `q`, converted under a hint.
pub open spec fn sp_typed_content(s: Seq<char>, q: int, hint: TypeHint) -> Option<
    (SpecValue, int),
> {
    match raw_end(s, q, 0) {
        Some(e) => if clean_after(s, e + 1) {
            match hint_conv(hint, s.subrange(q, e)) {
                Some(v) => Some((v, e + 1)),
                None => None,
            }
        } else {
            None
        },
        None => None,
    }
}

/// `<hint>(content)` — a typed scalar.
pub open spec fn sp_typed_scalar(s: Seq<char>, p: int) -> Option<(SpecValue, int)> {
    match sp_hint(s, p) {
        Some((hint, q)) => {
            let (t, q2) = next_tok(s, q);
            if t is LParen {
                sp_typed_content(s, q2, hint)
            } else {
                None
            }
        },
        None => None,
    }
}

/// The elements of a typed array: word tokens, each converted under the
/// hint, up to the closing bracket.
pub open spec fn sp_typed_items(
    s: Seq<char>,
    p: int,
    hint: TypeHint,
    acc: Seq<SpecValue>,
) -> Option<(Seq<SpecValue>, int)>
    decreases s.len() - p,
{
    let (t, q) = next_tok(s, p);
    match t {
        SpecTok::RBracket => if clean_after(s, q) {
            Some((acc, q))
        } else {
            None
        },
        SpecTok::Key(w) => match hint_conv(hint, w) {
            Some(v) => if p < q <= s.len() {
                sp_typed_items(s, q, hint, acc.push(v))
            } else {
                None
            },
            None => None,
        },
        _ => None,
    }
}

/// Any value: a keyed value, a typed scalar, an object, or an array.
pub open spec fn sp_value(s: Seq<char>, p: int) -> Option<(SpecValue, int)>
    decreases s.len() - p, 3int,
{
    let (t, q) = next_tok(s, p);
    match t {
        SpecTok::Key(k) => if p < q <= s.len() {
            match sp_cont(s, q) {
                Some((v, r)) => Some((SpecValue::Object(seq![(k, v)]), r)),
                None => None,
            }
        } else {
            None
        },
        SpecTok::LAngle => sp_typed_scalar(s, p),
        SpecTok::LBrace => sp_object(s, p),
        SpecTok::LBracket => sp_array(s, p),
        _ => None,
    }
}

/// What may follow a key: `(content)`, `{fields}`, `[items]`,
/// `<hint>(content)`, or `<hint>[items]`.
pub open spec fn sp_cont(s: Seq<char>, p: int) -> Option<(SpecValue, int)>
    decreases s.len() - p, 2int,
{
    let (t, q) = next_tok(s, p);
    match t {
        SpecTok::LParen => sp_raw_infer(s, q),
        SpecTok::LBrace => sp_object(s, p),
        SpecTok::LBracket => sp_array(s, p),
        SpecTok::LAngle => match sp_hint(s, p) {
            Some((hint, q2)) => {
                let (t2, q3) = next_tok(s, q2);
                match t2 {
                    SpecTok::LParen => sp_typed_content(s, q3, hint),
                    SpecTok::LBracket => if q2 < q3 <= s.len() {
                        match sp_typed_items(s, q3, hint, Seq::empty()) {
                            Some((xs, r)) => Some((SpecValue::Array(xs), r)),
                            None => None,
                        }
                    } else {
                        None
                    },
                    _ => None,
                }
            },
            None => None,
        },
        _ => None,
    }
}

/// `{ field* }` — an object.
pub open spec fn sp_object(s: Seq<char>, p: int) -> Option<(SpecValue, int)>
    decreases s.len() - p, 0int,
{
    let (t, q) = next_tok(s, p);
    if t is LBrace {
        if p < q <= s.len() {
            match sp_fields(s, q, Seq::empty()) {
                Some((ps, r)) => Some((SpecValue::Object(ps), r)),
                None => None,
            }
        } else {
            None
        }
    } else {
        None
    }
}

/// Object fields up to the closing brace; a repeated key is an error.
pub open spec fn sp_fields(
    s: Seq<char>,
    p: int,
    acc: Seq<(Seq<char>, SpecValue)>,
) -> Option<(Seq<(Seq<char>, SpecValue)>, int)>
    decreases s.len() - p, 1int,
{
    let (t, q) = next_tok(s, p);
    match t {
        SpecTok::RBrace => if clean_after(s, q) {
            Some((acc, q))
        } else {
            None
        },
        SpecTok::Key(k) => if p < q <= s.len() {
            match sp_cont(s, q) {
                Some((v, r)) => if obj_has_key(acc, k) {
                    None
                } else if p < r <= s.len() {
                    sp_fields(s, r, obj_insert(acc, k, v))
                } else {
                    None
                },
                None => None,
            }
        } else {
            None
        },
        _ => None,
    }
}

/// `[ item* ]` — an array.
pub open spec fn sp_array(s: Seq<char>, p: int) -> Option<(SpecValue, int)>
    decreases s.len() - p, 0int,
{
    let (t, q) = next_tok(s, p);
    if t is LBracket {
        if p < q <= s.len() {
            match sp_items(s, q, Seq::empty()) {
                Some((xs, r)) => Some((SpecValue::Array(xs), r)),
                None => None,
            }
        } else {
            None
        }
    } else {
        None
    }
}

/// Array items up to the closing bracket: typed scalars, objects, or
/// inferred words.
pub open spec fn sp_items(s: Seq<char>, p: int, acc: Seq<SpecValue>) -> Option<
    (Seq<SpecValue>, int),
>
    decreases s.len() - p, 1int,
{
    let (t, q) = next_tok(s, p);
    match t {
        SpecTok::RBracket => if clean_after(s, q) {
            Some((acc, q))
        } else {
            None
        },
        SpecTok::LAngle => match sp_typed_scalar(s, p) {
            Some((v, r)) => if p < r <= s.len() {
                sp_items(s, r, acc.push(v))
            } else {
                None
            },
            None => None,
        },
        SpecTok::LBrace => match sp_object(s, p) {
            Some((v, r)) => if p < r <= s.len() {
                sp_items(s, r, acc.push(v))
            } else {
                None
            },
            None => None,
        },
        SpecTok::Key(w) => if p < q <= s.len() {
            sp_items(s, q, acc.push(infer_of(w)))
        } else {
            None
        },
        _ => None,
    }
}

/// A whole document: one value, then end of input.
pub open spec fn sp_document(s: Seq<char>) -> Option<SpecValue> {
    match sp_value(s, 0) {
        Some((v, p)) => if next_tok(s, p).0 is Eof {
            Some(v)
        } else {
            None
        },
        None => None,
    }
}

// ---------------------------------------------------------------------------
// Error categories
// ---------------------------------------------------------------------------
//
// One classifier per production, mirroring it branch for branch: when the
// production gives `None`, its classifier names the category of the first
// failure (a broken token is an unexpected character; a missing token an
// unexpected one; unclosed raw content an unexpected end of input; a failed
// conversion a type mismatch; a repeated key a duplicate). Where a
// production succeeds, its classifier's value means nothing.

/// An unexpected character where the token is broken, `k` otherwise.
pub open spec fn bad_or(t: SpecTok, k: ErrorKind) -> ErrorKind {
    if t is Bad {
        ErrorKind::UnexpectedCharacter
    } else {
        k
    }
}

/// Failure category of [`sp_hint`].
pub open spec fn sp_hint_err(s: Seq<char>, p: int) -> ErrorKind {
    let (t1, q1) = next_tok(s, p);
    if !(t1 is LAngle) {
        bad_or(t1, ErrorKind::UnexpectedToken)
    } else {
        let (t2, q2) = next_tok(s, q1);
        match t2 {
            SpecTok::Key(h) => {
                let (t3, q3) = next_tok(s, q2);
                if !(t3 is RAngle) {
                    bad_or(t3, ErrorKind::UnexpectedToken)
                } else if !clean_after(s, q3) {
                    ErrorKind::UnexpectedCharacter
                } else {
                    ErrorKind::InvalidTypeHint
                }
            },
            _ => bad_or(t2, ErrorKind::UnexpectedToken),
        }
    }
}

/// Failure category of [`sp_raw_infer`].
pub open spec fn sp_raw_infer_err(s: Seq<char>, q: int) -> ErrorKind {
    match raw_end(s, q, 0) {
        Some(e) => ErrorKind::UnexpectedCharacter,
        None => ErrorKind::UnexpectedEof,
    }
}

/// Failure category of [`sp_typed_content`].
pub open spec fn sp_typed_content_err(s: Seq<char>, q: int, hint: TypeHint) -> ErrorKind {
    match raw_end(s, q, 0) {
        Some(e) => if !clean_after(s, e + 1) {
            ErrorKind::UnexpectedCharacter
        } else {
            ErrorKind::TypeMismatch
        },
        None => ErrorKind::UnexpectedEof,
    }
}

/// Failure category of [`sp_typed_scalar`].
pub open spec fn sp_typed_scalar_err(s: Seq<char>, p: int) -> ErrorKind {
    match sp_hint(s, p) {
        Some((hint, q)) => {
            let (t, q2) = next_tok(s, q);
            if t is LParen {
                sp_typed_content_err(s, q2, hint)
            } else {
                bad_or(t, ErrorKind::UnexpectedToken)
            }
        },
        None => sp_hint_err(s, p),
    }
}

/// Failure category of [`sp_typed_items`].
pub open spec fn sp_typed_items_err(s: Seq<char>, p: int, hint: TypeHint) -> ErrorKind
    decreases s.len() - p,
{
    let (t, q) = next_tok(s, p);
    match t {
        SpecTok::RBracket => ErrorKind::UnexpectedCharacter,
        SpecTok::Key(w) => match hint_conv(hint, w) {
            Some(v) => if p < q <= s.len() {
                sp_typed_items_err(s, q, hint)
            } else {
                ErrorKind::UnexpectedToken
            },
            None => ErrorKind::TypeMismatch,
        },
        _ => bad_or(t, ErrorKind::UnexpectedToken),
    }
}

/// Failure category of [`sp_value`].
pub open spec fn sp_value_err(s: Seq<char>, p: int) -> ErrorKind
    decreases s.len() - p, 3int,
{
    let (t, q) = next_tok(s, p);
    match t {
        SpecTok::Key(k) => if p < q <= s.len() {
            sp_cont_err(s, q)
        } else {
            ErrorKind::UnexpectedToken
        },
        SpecTok::LAngle => sp_typed_scalar_err(s, p),
        SpecTok::LBrace => sp_object_err(s, p),
        SpecTok::LBracket => sp_array_err(s, p),
        _ => bad_or(t, ErrorKind::UnexpectedToken),
    }
}

/// Failure category of [`sp_cont`].
pub open spec fn sp_cont_err(s: Seq<char>, p: int) -> ErrorKind
    decreases s.len() - p, 2int,
{
    let (t, q) = next_tok(s, p);
    match t {
        SpecTok::LParen => sp_raw_infer_err(s, q),
        SpecTok::LBrace => sp_object_err(s, p),
        SpecTok::LBracket => sp_array_err(s, p),
        SpecTok::LAngle => match sp_hint(s, p) {
            Some((hint, q2)) => {
                let (t2, q3) = next_tok(s, q2);
                match t2 {
                    SpecTok::LParen => sp_typed_content_err(s, q3, hint),
                    SpecTok::LBracket => if q2 < q3 <= s.len() {
                        sp_typed_items_err(s, q3, hint)
                    } else {
                        ErrorKind::UnexpectedToken
                    },
                    _ => bad_or(t2, ErrorKind::UnexpectedToken),
                }
            },
            None => sp_hint_err(s, p),
        },
        _ => bad_or(t, ErrorKind::InvalidSyntax),
    }
}

/// Failure category of [`sp_object`].
pub open spec fn sp_object_err(s: Seq<char>, p: int) -> ErrorKind
    decreases s.len() - p, 0int,
{
    let (t, q) = next_tok(s, p);
    if t is LBrace {
        if p < q <= s.len() {
            sp_fields_err(s, q, Seq::empty())
        } else {
            ErrorKind::UnexpectedToken
        }
    } else {
        bad_or(t, ErrorKind::UnexpectedToken)
    }
}

/// Failure category of [`sp_fields`].
pub open spec fn sp_fields_err(
    s: Seq<char>,
    p: int,
    acc: Seq<(Seq<char>, SpecValue)>,
) -> ErrorKind
    decreases s.len() - p, 1int,
{
    let (t, q) = next_tok(s, p);
    match t {
        SpecTok::RBrace => ErrorKind::UnexpectedCharacter,
        SpecTok::Key(k) => if p < q <= s.len() {
            match sp_cont(s, q) {
                Some((v, r)) => if obj_has_key(acc, k) {
                    ErrorKind::DuplicateKey
                } else if p < r <= s.len() {
                    sp_fields_err(s, r, obj_insert(acc, k, v))
                } else {
                    ErrorKind::UnexpectedToken
                },
                None => sp_cont_err(s, q),
            }
        } else {
            ErrorKind::UnexpectedToken
        },
        _ => bad_or(t, ErrorKind::UnexpectedToken),
    }
}

/// Failure category of [`sp_array`].
pub open spec fn sp_array_err(s: Seq<char>, p: int) -> ErrorKind
    decreases s.len() - p, 0int,
{
    let (t, q) = next_tok(s, p);
    if t is LBracket {
        if p < q <= s.len() {
            sp_items_err(s, q)
        } else {
            ErrorKind::UnexpectedToken
        }
    } else {
        bad_or(t, ErrorKind::UnexpectedToken)
    }
}

/// Failure category of [`sp_items`]. It does not depend on the elements
/// already gathered, since no failure of an item does.
pub open spec fn sp_items_err(s: Seq<char>, p: int) -> ErrorKind
    decreases s.len() - p, 1int,
{
    let (t, q) = next_tok(s, p);
    match t {
        SpecTok::RBracket => ErrorKind::UnexpectedCharacter,
        SpecTok::LAngle => match sp_typed_scalar(s, p) {
            Some((v, r)) => if p < r <= s.len() {
                sp_items_err(s, r)
            } else {
                ErrorKind::UnexpectedToken
            },
            None => sp_typed_scalar_err(s, p),
        },
        SpecTok::LBrace => match sp_object(s, p) {
            Some((v, r)) => if p < r <= s.len() {
                sp_items_err(s, r)
            } else {
                ErrorKind::UnexpectedToken
            },
            None => sp_object_err(s, p),
        },
        SpecTok::Key(w) => if p < q <= s.len() {
            sp_items_err(s, q)
        } else {
            ErrorKind::UnexpectedToken
        },
        _ => bad_or(t, ErrorKind::UnexpectedToken),
    }
}

// ---------------------------------------------------------------------------
// Well-formedness of conversion results
// ---------------------------------------------------------------------------

pub proof fn lemma_hint_conv_wf(h: TypeHint, t: Seq<char>)
    ensures
        hint_conv(h, t) matches Some(v) ==> wf(v),
{
}

// ---------------------------------------------------------------------------
// The executable parser
// ---------------------------------------------------------------------------

/// Finds the sorted position of `key` among the fields.
fn find_insert_pos(fields: &Vec<(String, Value)>, key: &str) -> (r: usize)
    ensures
        r as int == insert_pos(sv_pairs(fields@), key@),
        r <= fields@.len(),
{
    proof {
        crate::value::lemma_sv_pairs(fields@);
    }
    let ghost m = sv_pairs(fields@);
    let mut i: usize = 0;
    while i < fields.len()
        invariant
            m == sv_pairs(fields@),
            m.len() == fields@.len(),
            forall|j: int| 0 <= j < m.len() ==> #[trigger] m[j].0 == fields@[j].0@,
            0 <= i <= fields@.len(),
            insert_pos(m, key@) == insert_pos_from(m, key@, i as int),
        decreases fields@.len() - i,
    {
        if !crate::text::str_lt_str(fields[i].0.as_str(), key) {
            return i;
        }
        i += 1;
    }
    i
}

/// The recursive-descent parser: a lexer and one token of lookahead.
pub struct Parser<'a> {
    lexer: Lexer<'a>,
    current_token: Token,
    start: Ghost<int>,
}

impl<'a> Parser<'a> {
    /// The input being parsed.
    pub closed spec fn src(&self) -> Seq<char> {
        self.lexer.src()
    }

    /// The raw position where the lookahead token starts.
    pub closed spec fn at(&self) -> int {
        self.start@
    }

    /// The position just after the lookahead token.
    pub closed spec fn cur_end(&self) -> int {
        self.lexer.at()
    }

    /// Internal consistency: the lookahead token is the one the input holds
    /// at `at()`, and the lexer stands just after it.
    pub closed spec fn inv(&self) -> bool {
        &&& self.lexer.inv()
        &&& 0 <= self.start@ <= self.src().len()
        &&& next_tok(self.src(), self.start@) == (tok_view(self.current_token), self.lexer.at())
        &&& !(tok_view(self.current_token) is Bad)
    }

    /// A parser over `input`, with the first token already read.
    pub fn new(input: &'a str) -> (r: Result<Parser<'a>, Error>)
        requires
            input@.len() < usize::MAX,
        ensures
            match r {
                Ok(p) => p.inv() && p.src() == input@ && p.at() == 0,
                Err(e) => next_tok(input@, 0).0 is Bad && e.kind
                    == ErrorKind::UnexpectedCharacter,
            },
    {
        let mut lexer = Lexer::new(input);
        let current_token = match lexer.next_token() {
            Ok(t) => t,
            Err(e) => {
                return Err(e);
            },
        };
        proof {
            crate::lexer::lemma_next_tok_bounds(input@, 0);
        }
        Ok(Parser { lexer, current_token, start: Ghost(0) })
    }

    /// Replaces the lookahead with the next token from the lexer.
    fn advance(&mut self) -> (r: Result<(), Error>)
        requires
            old(self).lexer.inv(),
        ensures
            final(self).src() == old(self).src(),
            match r {
                Ok(_) => final(self).inv() && final(self).at() == old(self).lexer.at(),
                Err(e) => !clean_after(old(self).src(), old(self).lexer.at()) && e.kind
                    == ErrorKind::UnexpectedCharacter,
            },
    {
        proof {
            self.lexer.lemma_inv_bounds();
        }
        let ghost p = self.lexer.at();
        let t = match self.lexer.next_token() {
            Ok(t) => t,
            Err(e) => {
                return Err(e);
            },
        };
        proof {
            crate::lexer::lemma_next_tok_bounds(self.lexer.src(), p);
        }
        self.current_token = t;
        self.start = Ghost(p);
        Ok(())
    }

    /// An error of the given kind at the current position.
    fn err_here(&self, kind: ErrorKind, msg: &str) -> (r: Error)
        requires
            self.lexer.inv(),
        ensures
            r.kind == kind,
            r.message@ == msg@,
    {
        Error::new(kind, self.lexer.current_line(), self.lexer.current_column(),
            String::from_str(msg))
    }

    /// Parses the whole document: one value, then end of input.
    pub fn parse(&mut self) -> (r: Result<Value, Error>)
        requires
            old(self).inv(),
        ensures
            ({
                let d = sp_value(old(self).src(), old(self).at());
                match r {
                    Ok(v) => d matches Some(pair) && pair.0 == v@ && next_tok(
                        old(self).src(),
                        pair.1,
                    ).0 is Eof && wf(v@),
                    Err(e) => match d {
                        Some(pair) => !(next_tok(old(self).src(), pair.1).0 is Eof) && e.kind
                            == ErrorKind::UnexpectedToken && e.message@
                            == "Unexpected token after value"@,
                        None => e.kind == sp_value_err(old(self).src(), old(self).at()),
                    },
                }
            }),
    {
        let value = self.parse_value()?;
        if !matches!(self.current_token, Token::Eof) {
            return Err(self.err_here(ErrorKind::UnexpectedToken,
                "Unexpected token after value"));
        }
        Ok(value)
    }

    /// Parses any value (see [`sp_value`]).
    fn parse_value(&mut self) -> (r: Result<Value, Error>)
        requires
            old(self).inv(),
        ensures
            final(self).src() == old(self).src(),
            match r {
                Ok(v) => final(self).inv() && sp_value(old(self).src(), old(self).at()) == Some(
                    (v@, final(self).at()),
                ) && wf(v@) && final(self).at() > old(self).at(),
                Err(e) => sp_value(old(self).src(), old(self).at()) is None && e.kind
                    == sp_value_err(old(self).src(), old(self).at()),
            },
    {
        match &self.current_token {
            Token::Key(_) | Token::Type(_) => self.parse_keyed_value(),
            Token::LAngle => self.parse_typed_single_value(),
            Token::LBrace => self.parse_object(),
            Token::LBracket => self.parse_array(),
            _ => Err(self.err_here(ErrorKind::UnexpectedToken, "Unexpected token")),
        }
    }

    /// Parses `key` followed by its continuation, wrapped into a
    /// single-field object (see the `Key` arm of [`sp_value`]).
    fn parse_keyed_value(&mut self) -> (r: Result<Value, Error>)
        requires
            old(self).inv(),
            tok_view(old(self).current_token) is Key,
        ensures
            final(self).src() == old(self).src(),
            match r {
                Ok(v) => final(self).inv() && sp_value(old(self).src(), old(self).at()) == Some(
                    (v@, final(self).at()),
                ) && wf(v@) && final(self).at() > old(self).at(),
                Err(e) => sp_value(old(self).src(), old(self).at()) is None && e.kind
                    == sp_value_err(old(self).src(), old(self).at()),
            },
    {
        let key: String = match &self.current_token {
            Token::Key(k) => k.clone(),
            Token::Type(k) => k.clone(),
            _ => {
                return Err(self.err_here(ErrorKind::UnexpectedToken, "Expected key"));
            },
        };
        proof {
            crate::lexer::lemma_next_tok_bounds(old(self).src(), old(self).at());
        }
        self.advance()?;
        let value = self.parse_continuation()?;
        let mut fields: Vec<(String, Value)> = Vec::new();
        fields.push((key, value));
        let out = Value::Object(fields);
        proof {
            let k = next_tok(old(self).src(), old(self).at()).0->Key_0;
            let vv = sv(out)->Object_0;
            crate::value::lemma_sv_pairs(out->Object_0@);
            assert(vv =~= seq![(k, sp_cont(old(self).src(), old(self).lexer.at()).unwrap().0)]);
        }
        Ok(out)
    }

    /// Parses the continuation after a key (see [`sp_cont`]).
    #[verifier::rlimit(60)]
    fn parse_continuation(&mut self) -> (r: Result<Value, Error>)
        requires
            old(self).inv(),
        ensures
            final(self).src() == old(self).src(),
            match r {
                Ok(v) => final(self).inv() && sp_cont(old(self).src(), old(self).at()) == Some(
                    (v@, final(self).at()),
                ) && wf(v@) && final(self).at() > old(self).at(),
                Err(e) => sp_cont(old(self).src(), old(self).at()) is None && e.kind
                    == sp_cont_err(old(self).src(), old(self).at()),
            },
        decreases self.src().len() - self.at(), 3int,
    {
        match &self.current_token {
            Token::LParen => {
                proof {
                    crate::lexer::lemma_next_tok_bounds(self.src(), self.at());
                }
                self.parse_untyped_single_value()
            },
            Token::LBrace => self.parse_object(),
            Token::LBracket => {
                let items = self.parse_untyped_array_content()?;
                let out = Value::Array(items);
                Ok(out)
            },
            Token::LAngle => {
                proof {
                    crate::lexer::lemma_next_tok_bounds(self.src(), self.at());
                }
                let hint = self.parse_type_hint()?;
                proof {
                    crate::lexer::lemma_next_tok_bounds(self.src(), self.at());
                }
                match &self.current_token {
                    Token::LParen => self.parse_single_value_content(hint),
                    Token::LBracket => {
                        let items = self.parse_typed_array_content(hint)?;
                        Ok(Value::Array(items))
                    },
                    _ => Err(self.err_here(ErrorKind::UnexpectedToken,
                        "Expected '(' or '[' after type hint")),
                }
            },
            _ => Err(self.err_here(ErrorKind::InvalidSyntax,
                "Expected '(', '[', '{', or '<' after key")),
        }
    }

    /// Parses `<code>` into a type hint (see [`sp_hint`]).
    fn parse_type_hint(&mut self) -> (r: Result<TypeHint, Error>)
        requires
            old(self).inv(),
        ensures
            final(self).src() == old(self).src(),
            match r {
                Ok(h) => final(self).inv() && sp_hint(old(self).src(), old(self).at()) == Some(
                    (h, final(self).at()),
                ) && final(self).at() > old(self).at(),
                Err(e) => sp_hint(old(self).src(), old(self).at()) is None && e.kind
                    == sp_hint_err(old(self).src(), old(self).at()),
            },
    {
        if !matches!(self.current_token, Token::LAngle) {
            return Err(self.err_here(ErrorKind::UnexpectedToken, "Expected '<'"));
        }
        proof {
            crate::lexer::lemma_next_tok_bounds(old(self).src(), old(self).at());
        }
        self.advance()?;
        let text: String = match &self.current_token {
            Token::Key(k) => k.clone(),
            Token::Type(k) => k.clone(),
            _ => {
                return Err(self.err_here(ErrorKind::UnexpectedToken, "Expected type hint"));
            },
        };
        proof {
            crate::lexer::lemma_next_tok_bounds(self.src(), self.at());
        }
        self.advance()?;
        if !matches!(self.current_token, Token::RAngle) {
            return Err(self.err_here(ErrorKind::UnexpectedToken, "Expected '>'"));
        }
        proof {
            crate::lexer::lemma_next_tok_bounds(self.src(), self.at());
        }
        self.advance()?;
        match TypeHint::from_str(text.as_str()) {
            Ok(h) => Ok(h),
            Err(m) => Err(Error::new(ErrorKind::InvalidTypeHint, self.lexer.current_line(),
                self.lexer.current_column(), m)),
        }
    }

    /// Parses `(content)` under a hint (see [`sp_typed_content`]); the
    /// lookahead must be the opening parenthesis.
    fn parse_single_value_content(&mut self, type_hint: TypeHint) -> (r: Result<Value, Error>)
        requires
            old(self).inv(),
            tok_view(old(self).current_token) is LParen,
        ensures
            final(self).src() == old(self).src(),
            match r {
                Ok(v) => final(self).inv() && sp_typed_content(
                    old(self).src(),
                    old(self).cur_end(),
                    type_hint,
                ) == Some((v@, final(self).at())) && wf(v@) && final(self).at() > old(
                    self,
                ).cur_end() - 1,
                Err(e) => sp_typed_content(old(self).src(), old(self).cur_end(), type_hint)
                    is None && e.kind == sp_typed_content_err(
                    old(self).src(),
                    old(self).cur_end(),
                    type_hint,
                ),
            },
    {
        proof {
            self.lexer.lemma_inv_bounds();
            crate::lexer::lemma_raw_end_bounds(self.src(), self.cur_end(), 0);
        }
        let content = self.lexer.read_parenthesized_content()?;
        self.advance()?;
        match type_hint.parse_value(content.as_str()) {
            Ok(v) => {
                proof {
                    lemma_hint_conv_wf(type_hint, content@);
                }
                Ok(v)
            },
            Err(m) => Err(Error::new(ErrorKind::TypeMismatch, self.lexer.current_line(),
                self.lexer.current_column(), m)),
        }
    }

    /// Parses `(content)` with type inference (see [`sp_raw_infer`]); the
    /// lookahead must be the opening parenthesis.
    fn parse_untyped_single_value(&mut self) -> (r: Result<Value, Error>)
        requires
            old(self).inv(),
            tok_view(old(self).current_token) is LParen,
        ensures
            final(self).src() == old(self).src(),
            match r {
                Ok(v) => final(self).inv() && sp_raw_infer(old(self).src(), old(self).cur_end())
                    == Some((v@, final(self).at())) && wf(v@) && final(self).at() > old(
                    self,
                ).cur_end() - 1,
                Err(e) => sp_raw_infer(old(self).src(), old(self).cur_end()) is None && e.kind
                    == sp_raw_infer_err(old(self).src(), old(self).cur_end()),
            },
    {
        proof {
            self.lexer.lemma_inv_bounds();
            crate::lexer::lemma_raw_end_bounds(self.src(), self.cur_end(), 0);
        }
        let content = self.lexer.read_parenthesized_content()?;
        self.advance()?;
        self.infer_value(content.as_str())
    }

    /// Infers a value from raw text (see [`infer_of`]). Inference cannot
    /// fail: unrecognized text is a string.
    fn infer_value(&self, content: &str) -> (r: Result<Value, Error>)
        ensures
            match r {
                Ok(v) => v@ == infer_of(content@) && wf(v@),
                Err(_) => false,
            },
    {
        let n = content.unicode_len();
        if n == 0 {
            return Ok(Value::Null);
        }
        if n == 4 && content.get_char(0) == 'n' && content.get_char(1) == 'u' && content.get_char(
            2,
        ) == 'l' && content.get_char(3) == 'l' {
            return Ok(Value::Null);
        }
        if (n == 1 && content.get_char(0) == 't') || (n == 4 && content.get_char(0) == 't'
            && content.get_char(1) == 'r' && content.get_char(2) == 'u' && content.get_char(3)
            == 'e') {
            return Ok(Value::Bool(true));
        }
        if (n == 1 && content.get_char(0) == 'f') || (n == 5 && content.get_char(0) == 'f'
            && content.get_char(1) == 'a' && content.get_char(2) == 'l' && content.get_char(3)
            == 's' && content.get_char(4) == 'e') {
            return Ok(Value::Bool(false));
        }
        match crate::types::parse_in_range_signed(content, i64::MIN, i64::MAX) {
            Some(v) => Ok(Value::I64(v)),
            None => {
                if crate::numtext::check_float_text(content) {
                    Ok(Value::F64(content.to_owned()))
                } else {
                    Ok(Value::Str(content.to_owned()))
                }
            },
        }
    }

    /// Parses `<hint>(content)` (see [`sp_typed_scalar`]).
    fn parse_typed_single_value(&mut self) -> (r: Result<Value, Error>)
        requires
            old(self).inv(),
        ensures
            final(self).src() == old(self).src(),
            match r {
                Ok(v) => final(self).inv() && sp_typed_scalar(old(self).src(), old(self).at())
                    == Some((v@, final(self).at())) && wf(v@) && final(self).at() > old(
                    self,
                ).at(),
                Err(e) => sp_typed_scalar(old(self).src(), old(self).at()) is None && e.kind
                    == sp_typed_scalar_err(old(self).src(), old(self).at()),
            },
    {
        let type_hint = self.parse_type_hint()?;
        if !matches!(self.current_token, Token::LParen) {
            return Err(self.err_here(ErrorKind::UnexpectedToken, "Expected '('"));
        }
        proof {
            crate::lexer::lemma_next_tok_bounds(self.src(), self.at());
        }
        self.parse_single_value_content(type_hint)
    }

    /// Parses `{ field* }` (see [`sp_object`]).
    fn parse_object(&mut self) -> (r: Result<Value, Error>)
        requires
            old(self).inv(),
        ensures
            final(self).src() == old(self).src(),
            match r {
                Ok(v) => final(self).inv() && sp_object(old(self).src(), old(self).at()) == Some(
                    (v@, final(self).at()),
                ) && wf(v@) && final(self).at() > old(self).at(),
                Err(e) => sp_object(old(self).src(), old(self).at()) is None && e.kind
                    == sp_object_err(old(self).src(), old(self).at()),
            },
        decreases self.src().len() - self.at(), 1int,
    {
        let ghost s = self.src();
        let ghost p0 = self.at();
        if !matches!(self.current_token, Token::LBrace) {
            return Err(self.err_here(ErrorKind::UnexpectedToken, "Expected '{'"));
        }
        proof {
            crate::lexer::lemma_next_tok_bounds(s, p0);
        }
        let ghost q0 = next_tok(s, p0).1;
        self.advance()?;
        let mut fields: Vec<(String, Value)> = Vec::new();
        proof {
            crate::value::lemma_sv_pairs(fields@);
            assert(sv_pairs(fields@) =~= Seq::<(Seq<char>, SpecValue)>::empty());
        }
        loop
            invariant
                self.inv(),
                self.src() == s,
                s == old(self).src(),
                p0 == old(self).at(),
                0 <= p0 < q0 <= self.at() <= s.len(),
                next_tok(s, p0) == (SpecTok::LBrace, q0),
                sp_fields(s, q0, Seq::empty()) == sp_fields(s, self.at(), sv_pairs(fields@)),
                sp_fields_err(s, q0, Seq::empty()) == sp_fields_err(
                    s,
                    self.at(),
                    sv_pairs(fields@),
                ),
                obj_keys_sorted(sv_pairs(fields@)),
                forall|i: int|
                    0 <= i < sv_pairs(fields@).len() ==> wf(#[trigger] sv_pairs(fields@)[i].1),
            decreases s.len() - self.at(),
        {
            match &self.current_token {
                Token::RBrace => {
                    proof {
                        crate::lexer::lemma_next_tok_bounds(s, self.at());
                    }
                    self.advance()?;
                    let out = Value::Object(fields);
                    return Ok(out);
                },
                Token::Eof => {
                    return Err(self.err_here(ErrorKind::UnexpectedToken,
                        "Expected '}' before end of input"));
                },
                _ => {
                    let ghost at_field = self.at();
                    let (key, val) = match self.parse_object_field() {
                        Ok(kv) => kv,
                        Err(e) => {
                            proof {
                                crate::lexer::lemma_next_tok_bounds(s, at_field);
                                let accg = sv_pairs(fields@);
                                let (t, q) = next_tok(s, at_field);
                                match t {
                                    SpecTok::Key(kk) => {
                                        assert(sp_fields_err(s, at_field, accg) == sp_cont_err(
                                            s,
                                            q,
                                        ));
                                    },
                                    _ => {
                                        assert(sp_fields_err(s, at_field, accg) == bad_or(
                                            t,
                                            ErrorKind::UnexpectedToken,
                                        ));
                                    },
                                }
                                assert(sp_fields(s, at_field, accg) is None);
                            }
                            return Err(e);
                        },
                    };
                    let ghost gk = key@;
                    let ghost gv = sv(val);
                    let ghost q = next_tok(s, at_field).1;
                    let ghost acc = sv_pairs(fields@);
                    proof {
                        crate::lexer::lemma_next_tok_bounds(s, at_field);
                        assert(next_tok(s, at_field).0 == SpecTok::Key(gk));
                        assert(sp_cont(s, q) == Some((gv, self.at())));
                    }
                    let pos = find_insert_pos(&fields, key.as_str());
                    proof {
                        lemma_sorted_key_at_pos(acc, gk);
                        crate::value::lemma_sv_pairs(fields@);
                        lemma_insert_pos_from(acc, gk, 0);
                    }
                    if pos < fields.len() && crate::text::str_eq_str(fields[pos].0.as_str(),
                        key.as_str()) {
                        proof {
                            assert(obj_has_key(acc, gk));
                            assert(sp_fields(s, at_field, acc) is None);
                            assert(sp_fields(s, q0, Seq::empty()) is None);
                            assert(sp_object(s, p0) is None);
                            assert(sp_fields_err(s, at_field, acc) == ErrorKind::DuplicateKey);
                            assert(sp_object_err(s, p0) == ErrorKind::DuplicateKey);
                        }
                        let msg = crate::types::message_around("Duplicate key: ", key.as_str(),
                            "");
                        return Err(Error::new(ErrorKind::DuplicateKey, self.lexer.current_line(),
                            self.lexer.current_column(), msg));
                    }
                    proof {
                        assert(!obj_has_key(acc, gk));
                        lemma_obj_insert_sorted(acc, gk, gv);
                        lemma_sv_pairs_insert(fields@, pos as int, (key, val));
                    }
                    fields.insert(pos, (key, val));
                    proof {
                        crate::value::lemma_sv_pairs(fields@);
                        assert(sv_pairs(fields@) =~= acc.insert(insert_pos(acc, gk), (gk, gv)));
                        assert(sv_pairs(fields@) == obj_insert(acc, gk, gv));
                        assert(at_field < self.at() <= s.len());
                        assert(sp_fields(s, at_field, acc) == sp_fields(
                            s,
                            self.at(),
                            obj_insert(acc, gk, gv),
                        ));
                        assert(sp_fields_err(s, at_field, acc) == sp_fields_err(
                            s,
                            self.at(),
                            obj_insert(acc, gk, gv),
                        ));
                    }
                },
            }
        }
    }

    /// Parses one `key` + continuation field of an object (the `Key` arm of
    /// [`sp_fields`]).
    fn parse_object_field(&mut self) -> (r: Result<(String, Value), Error>)
        requires
            old(self).inv(),
        ensures
            final(self).src() == old(self).src(),
            match r {
                Ok(kv) => final(self).inv() && (match next_tok(old(self).src(), old(self).at()) {
                    (SpecTok::Key(kk), q) => kk == kv.0@ && sp_cont(old(self).src(), q) == Some(
                        (kv.1@, final(self).at()),
                    ),
                    _ => false,
                }) && wf(kv.1@) && final(self).at() > old(self).at(),
                Err(e) => match next_tok(old(self).src(), old(self).at()).0 {
                    SpecTok::Key(kk) => sp_cont(
                        old(self).src(),
                        next_tok(old(self).src(), old(self).at()).1,
                    ) is None && e.kind == sp_cont_err(
                        old(self).src(),
                        next_tok(old(self).src(), old(self).at()).1,
                    ),
                    t => e.kind == bad_or(t, ErrorKind::UnexpectedToken),
                },
            },
        decreases self.src().len() - self.at(), 0int,
    {
        let key: String = match &self.current_token {
            Token::Key(k) => k.clone(),
            Token::Type(k) => k.clone(),
            _ => {
                return Err(self.err_here(ErrorKind::UnexpectedToken,
                    "Expected key in object field"));
            },
        };
        proof {
            crate::lexer::lemma_next_tok_bounds(old(self).src(), old(self).at());
        }
        self.advance()?;
        let value = self.parse_continuation()?;
        Ok((key, value))
    }

    /// Parses `[ item* ]` (see [`sp_array`]).
    fn parse_array(&mut self) -> (r: Result<Value, Error>)
        requires
            old(self).inv(),
        ensures
            final(self).src() == old(self).src(),
            match r {
                Ok(v) => final(self).inv() && sp_array(old(self).src(), old(self).at()) == Some(
                    (v@, final(self).at()),
                ) && wf(v@) && final(self).at() > old(self).at(),
                Err(e) => sp_array(old(self).src(), old(self).at()) is None && e.kind
                    == sp_array_err(old(self).src(), old(self).at()),
            },
        decreases self.src().len() - self.at(), 1int,
    {
        let items = self.parse_untyped_array_content()?;
        Ok(Value::Array(items))
    }

    /// Parses one array item: a typed scalar, an object, or an inferred
    /// word (the non-bracket arms of [`sp_items`]).
    fn parse_array_item(&mut self) -> (r: Result<Value, Error>)
        requires
            old(self).inv(),
            !(tok_view(old(self).current_token) is RBracket),
            !(tok_view(old(self).current_token) is Eof),
        ensures
            final(self).src() == old(self).src(),
            match r {
                Ok(v) => final(self).inv() && wf(v@) && final(self).at() > old(self).at() && (
                match next_tok(old(self).src(), old(self).at()) {
                    (SpecTok::LAngle, _) => sp_typed_scalar(old(self).src(), old(self).at())
                        == Some((v@, final(self).at())),
                    (SpecTok::LBrace, _) => sp_object(old(self).src(), old(self).at()) == Some(
                        (v@, final(self).at()),
                    ),
                    (SpecTok::Key(w), q) => v@ == infer_of(w) && final(self).at() == q
                        && clean_after(old(self).src(), q),
                    _ => false,
                }),
                Err(e) => match next_tok(old(self).src(), old(self).at()) {
                    (SpecTok::LAngle, _) => sp_typed_scalar(old(self).src(), old(self).at())
                        is None && e.kind == sp_typed_scalar_err(old(self).src(), old(self).at()),
                    (SpecTok::LBrace, _) => sp_object(old(self).src(), old(self).at()) is None
                        && e.kind == sp_object_err(old(self).src(), old(self).at()),
                    (SpecTok::Key(w), q) => !clean_after(old(self).src(), q) && e.kind
                        == ErrorKind::UnexpectedCharacter,
                    (t, _) => e.kind == bad_or(t, ErrorKind::UnexpectedToken),
                },
            },
        decreases self.src().len() - self.at(), 3int,
    {
        match &self.current_token {
            Token::LAngle => self.parse_typed_single_value(),
            Token::LBrace => self.parse_object(),
            Token::Key(_) | Token::Type(_) => {
                let text: String = match &self.current_token {
                    Token::Key(k) => k.clone(),
                    Token::Type(k) => k.clone(),
                    _ => {
                        return Err(self.err_here(ErrorKind::UnexpectedToken,
                            "Expected value in array"));
                    },
                };
                proof {
                    crate::lexer::lemma_next_tok_bounds(old(self).src(), old(self).at());
                }
                self.advance()?;
                self.infer_value(text.as_str())
            },
            _ => Err(self.err_here(ErrorKind::UnexpectedToken, "Unexpected token in array")),
        }
    }

    /// Parses the items of `[ ... ]`, the opening bracket included (the
    /// contents of [`sp_array`]).
    fn parse_untyped_array_content(&mut self) -> (r: Result<Vec<Value>, Error>)
        requires
            old(self).inv(),
        ensures
            final(self).src() == old(self).src(),
            match r {
                Ok(items) => final(self).inv() && sp_array(old(self).src(), old(self).at())
                    == Some((SpecValue::Array(crate::value::sv_elems(items@)), final(self).at()))
                    && wf(SpecValue::Array(crate::value::sv_elems(items@))) && final(self).at()
                    > old(self).at(),
                Err(e) => sp_array(old(self).src(), old(self).at()) is None && e.kind
                    == sp_array_err(old(self).src(), old(self).at()),
            },
        decreases self.src().len() - self.at(), 2int,
    {
        let ghost s = self.src();
        let ghost p0 = self.at();
        if !matches!(self.current_token, Token::LBracket) {
            return Err(self.err_here(ErrorKind::UnexpectedToken, "Expected '['"));
        }
        proof {
            crate::lexer::lemma_next_tok_bounds(s, p0);
        }
        let ghost q0 = next_tok(s, p0).1;
        self.advance()?;
        let mut items: Vec<Value> = Vec::new();
        proof {
            crate::value::lemma_sv_elems(items@);
            assert(crate::value::sv_elems(items@) =~= Seq::<SpecValue>::empty());
        }
        loop
            invariant
                self.inv(),
                self.src() == s,
                s == old(self).src(),
                p0 == old(self).at(),
                0 <= p0 < q0 <= self.at() <= s.len(),
                next_tok(s, p0) == (SpecTok::LBracket, q0),
                sp_items(s, q0, Seq::empty()) == sp_items(
                    s,
                    self.at(),
                    crate::value::sv_elems(items@),
                ),
                sp_items_err(s, q0) == sp_items_err(s, self.at()),
                forall|i: int|
                    0 <= i < crate::value::sv_elems(items@).len() ==> wf(
                        #[trigger] crate::value::sv_elems(items@)[i],
                    ),
            decreases s.len() - self.at(),
        {
            match &self.current_token {
                Token::RBracket => {
                    proof {
                        crate::lexer::lemma_next_tok_bounds(s, self.at());
                    }
                    self.advance()?;
                    return Ok(items);
                },
                Token::Eof => {
                    return Err(self.err_here(ErrorKind::UnexpectedToken,
                        "Expected ']' before end of input"));
                },
                _ => {
                    let ghost acc = crate::value::sv_elems(items@);
                    let ghost at_item = self.at();
                    proof {
                        crate::lexer::lemma_next_tok_bounds(s, at_item);
                    }
                    let item = match self.parse_array_item() {
                        Ok(v) => v,
                        Err(e) => {
                            proof {
                                let (t, q) = next_tok(s, at_item);
                                match t {
                                    SpecTok::Key(w) => {
                                        assert(sp_items(s, q, acc.push(infer_of(w))) is None);
                                        assert(sp_items_err(s, at_item) == sp_items_err(s, q));
                                    },
                                    _ => {},
                                }
                                assert(sp_items(s, at_item, acc) is None);
                            }
                            return Err(e);
                        },
                    };
                    proof {
                        crate::value::lemma_sv_elems(items@.push(item));
                        crate::value::lemma_sv_elems(items@);
                        assert(crate::value::sv_elems(items@.push(item)) =~= acc.push(sv(item)));
                        assert(sp_items(s, at_item, acc) == sp_items(
                            s,
                            self.at(),
                            acc.push(sv(item)),
                        ));
                        assert(sp_items_err(s, at_item) == sp_items_err(s, self.at()));
                    }
                    items.push(item);
                },
            }
        }
    }

    /// Parses the word elements of a typed array, the opening bracket
    /// included (see [`sp_typed_items`]).
    fn parse_typed_array_content(&mut self, type_hint: TypeHint) -> (r: Result<Vec<Value>, Error>)
        requires
            old(self).inv(),
        ensures
            final(self).src() == old(self).src(),
            match r {
                Ok(items) => final(self).inv() && (match next_tok(old(self).src(), old(self).at())
                 {
                    (SpecTok::LBracket, q) => sp_typed_items(
                        old(self).src(),
                        q,
                        type_hint,
                        Seq::empty(),
                    ) == Some((crate::value::sv_elems(items@), final(self).at())) && old(
                        self,
                    ).at() < q <= old(self).src().len(),
                    _ => false,
                }) && wf(SpecValue::Array(crate::value::sv_elems(items@))) && final(self).at()
                    > old(self).at(),
                Err(e) => match next_tok(old(self).src(), old(self).at()) {
                    (SpecTok::LBracket, q) => !(old(self).at() < q <= old(self).src().len())
                        || (sp_typed_items(old(self).src(), q, type_hint, Seq::empty()) is None
                        && e.kind == sp_typed_items_err(old(self).src(), q, type_hint)),
                    (t, _) => e.kind == bad_or(t, ErrorKind::UnexpectedToken),
                },
            },
    {
        let ghost s = self.src();
        let ghost p0 = self.at();
        if !matches!(self.current_token, Token::LBracket) {
            return Err(self.err_here(ErrorKind::UnexpectedToken, "Expected '['"));
        }
        proof {
            crate::lexer::lemma_next_tok_bounds(s, p0);
        }
        let ghost q0 = next_tok(s, p0).1;
        self.advance()?;
        let mut items: Vec<Value> = Vec::new();
        proof {
            crate::value::lemma_sv_elems(items@);
            assert(crate::value::sv_elems(items@) =~= Seq::<SpecValue>::empty());
        }
        loop
            invariant
                self.inv(),
                self.src() == s,
                s == old(self).src(),
                p0 == old(self).at(),
                0 <= p0 < q0 <= self.at() <= s.len(),
                next_tok(s, p0) == (SpecTok::LBracket, q0),
                sp_typed_items(s, q0, type_hint, Seq::empty()) == sp_typed_items(
                    s,
                    self.at(),
                    type_hint,
                    crate::value::sv_elems(items@),
                ),
                sp_typed_items_err(s, q0, type_hint) == sp_typed_items_err(
                    s,
                    self.at(),
                    type_hint,
                ),
                forall|i: int|
                    0 <= i < crate::value::sv_elems(items@).len() ==> wf(
                        #[trigger] crate::value::sv_elems(items@)[i],
                    ),
            decreases s.len() - self.at(),
        {
            match &self.current_token {
                Token::RBracket => {
                    proof {
                        crate::lexer::lemma_next_tok_bounds(s, self.at());
                    }
                    self.advance()?;
                    return Ok(items);
                },
                Token::Key(_) | Token::Type(_) => {
                    let text: String = match &self.current_token {
                        Token::Key(k) => k.clone(),
                        Token::Type(k) => k.clone(),
                        _ => {
                            return Err(self.err_here(ErrorKind::UnexpectedToken,
                                "Expected value in typed array"));
                        },
                    };
                    let value = match type_hint.parse_value(text.as_str()) {
                        Ok(v) => v,
                        Err(m) => {
                            return Err(Error::new(ErrorKind::TypeMismatch,
                                self.lexer.current_line(), self.lexer.current_column(), m));
                        },
                    };
                    proof {
                        lemma_hint_conv_wf(type_hint, text@);
                        crate::lexer::lemma_next_tok_bounds(s, self.at());
                    }
                    let ghost acc = crate::value::sv_elems(items@);
                    let ghost at_item = self.at();
                    let ghost q = next_tok(s, at_item).1;
                    let ghost gv = sv(value);
                    match self.advance() {
                        Ok(_) => (),
                        Err(e) => {
                            proof {
                                assert(sp_typed_items(s, q, type_hint, acc.push(gv)) is None);
                                assert(sp_typed_items(s, at_item, type_hint, acc) is None);
                                assert(sp_typed_items_err(s, at_item, type_hint)
                                    == sp_typed_items_err(s, q, type_hint));
                                assert(sp_typed_items_err(s, q, type_hint)
                                    == ErrorKind::UnexpectedCharacter);
                            }
                            return Err(e);
                        },
                    }
                    proof {
                        crate::value::lemma_sv_elems(items@.push(value));
                        crate::value::lemma_sv_elems(items@);
                        assert(crate::value::sv_elems(items@.push(value)) =~= acc.push(sv(value)));
                        assert(sp_typed_items(s, at_item, type_hint, acc) == sp_typed_items(
                            s,
                            self.at(),
                            type_hint,
                            acc.push(gv),
                        ));
                        assert(sp_typed_items_err(s, at_item, type_hint) == sp_typed_items_err(
                            s,
                            self.at(),
                            type_hint,
                        ));
                    }
                    items.push(value);
                },
                _ => {
                    return Err(self.err_here(ErrorKind::UnexpectedToken,
                        "Expected value in typed array"));
                },
            }
        }
    }
}

/// Parses a GBLN document into a value tree.
///
/// Returns exactly what the grammar gives: `Ok(v)` when [`sp_document`]
/// accepts the input with tree `v` (which is then well-formed), and an
/// error when it does not.
pub fn parse(input: &str) -> (r: Result<Value, Error>)
    requires
        input@.len() < usize::MAX,
    ensures
        match r {
            Ok(v) => sp_document(input@) == Some(v@) && wf(v@),
            Err(e) => sp_document(input@) is None && (match sp_value(input@, 0) {
                Some(pair) => e.kind == ErrorKind::UnexpectedToken && e.message@
                    == "Unexpected token after value"@,
                None => e.kind == sp_value_err(input@, 0),
            }),
        },
{
    let mut parser = match Parser::new(input) {
        Ok(p) => p,
        Err(e) => {
            return Err(e);
        },
    };
    parser.parse()
}

} // verus!

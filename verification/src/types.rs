//! Type hints: the inline type annotations of GBLN, their textual codes,
//! and validated conversion of raw text into typed values.

use vstd::prelude::*;
use crate::numtext::{dec_text, int_of_text, is_float_text, parse_int_text};
use crate::text::chars_to_string;
use crate::value::{SpecValue, Value};

verus! {

/// A GBLN type hint: the exact scalar type a value must have. `Str(n)`
/// bounds the character count of a string.
#[derive(Debug, Clone, Copy, PartialEq, Eq, Structural)]
pub enum TypeHint {
    I8,
    I16,
    I32,
    I64,
    U8,
    U16,
    U32,
    U64,
    F32,
    F64,
    Str(usize),
    Bool,
    Null,
}

// ---------------------------------------------------------------------------
// Hint codes
// ---------------------------------------------------------------------------

/// The canonical code of a hint, e.g. `i8`, `s64`, `b`.
pub open spec fn hint_text(h: TypeHint) -> Seq<char> {
    match h {
        TypeHint::I8 => seq!['i', '8'],
        TypeHint::I16 => seq!['i', '1', '6'],
        TypeHint::I32 => seq!['i', '3', '2'],
        TypeHint::I64 => seq!['i', '6', '4'],
        TypeHint::U8 => seq!['u', '8'],
        TypeHint::U16 => seq!['u', '1', '6'],
        TypeHint::U32 => seq!['u', '3', '2'],
        TypeHint::U64 => seq!['u', '6', '4'],
        TypeHint::F32 => seq!['f', '3', '2'],
        TypeHint::F64 => seq!['f', '6', '4'],
        TypeHint::Str(n) => seq!['s'] + dec_text(n as int),
        TypeHint::Bool => seq!['b'],
        TypeHint::Null => seq!['n'],
    }
}

/// The hint denoted by a code: one of the fixed scalar codes, or `s`
/// followed by a decimal count (an optional `+` sign is accepted, as the
/// standard library's unsigned parsing accepts it).
pub open spec fn hint_of_text(s: Seq<char>) -> Option<TypeHint> {
    if s == hint_text(TypeHint::I8) {
        Some(TypeHint::I8)
    } else if s == hint_text(TypeHint::I16) {
        Some(TypeHint::I16)
    } else if s == hint_text(TypeHint::I32) {
        Some(TypeHint::I32)
    } else if s == hint_text(TypeHint::I64) {
        Some(TypeHint::I64)
    } else if s == hint_text(TypeHint::U8) {
        Some(TypeHint::U8)
    } else if s == hint_text(TypeHint::U16) {
        Some(TypeHint::U16)
    } else if s == hint_text(TypeHint::U32) {
        Some(TypeHint::U32)
    } else if s == hint_text(TypeHint::U64) {
        Some(TypeHint::U64)
    } else if s == hint_text(TypeHint::F32) {
        Some(TypeHint::F32)
    } else if s == hint_text(TypeHint::F64) {
        Some(TypeHint::F64)
    } else if s == hint_text(TypeHint::Bool) {
        Some(TypeHint::Bool)
    } else if s == hint_text(TypeHint::Null) {
        Some(TypeHint::Null)
    } else if s.len() > 0 && s[0] == 's' {
        match int_of_text(s.skip(1)) {
            Some(n) => if 0 <= n <= usize::MAX && !(s.len() > 1 && s[1] == '-') {
                Some(TypeHint::Str(n as usize))
            } else {
                None
            },
            None => None,
        }
    } else {
        None
    }
}

// ---------------------------------------------------------------------------
// Validated conversion of raw text
// ---------------------------------------------------------------------------

/// `t` spells boolean truth: `t` or `true`.
pub open spec fn is_true_text(t: Seq<char>) -> bool {
    (t.len() == 1 && t[0] == 't') || (t.len() == 4 && t[0] == 't' && t[1] == 'r' && t[2] == 'u'
        && t[3] == 'e')
}

/// `t` spells boolean falsehood: `f` or `false`.
pub open spec fn is_false_text(t: Seq<char>) -> bool {
    (t.len() == 1 && t[0] == 'f') || (t.len() == 5 && t[0] == 'f' && t[1] == 'a' && t[2] == 'l'
        && t[3] == 's' && t[4] == 'e')
}

/// `t` spells null: empty or `null`.
pub open spec fn is_null_text(t: Seq<char>) -> bool {
    t.len() == 0 || (t.len() == 4 && t[0] == 'n' && t[1] == 'u' && t[2] == 'l' && t[3] == 'l')
}

/// The value that raw text `t` denotes under hint `h`, or `None` when the
/// text is malformed or out of the hint's range. Signed integer text is an
/// optional sign and digits within the width's range; unsigned integer text
/// additionally must not carry a `-` sign; float text must be a float
/// literal; a string must have at most the hinted number of characters.
pub open spec fn hint_conv(h: TypeHint, t: Seq<char>) -> Option<SpecValue> {
    match h {
        TypeHint::I8 => match int_of_text(t) {
            Some(n) => if i8::MIN <= n <= i8::MAX {
                Some(SpecValue::I8(n))
            } else {
                None
            },
            None => None,
        },
        TypeHint::I16 => match int_of_text(t) {
            Some(n) => if i16::MIN <= n <= i16::MAX {
                Some(SpecValue::I16(n))
            } else {
                None
            },
            None => None,
        },
        TypeHint::I32 => match int_of_text(t) {
            Some(n) => if i32::MIN <= n <= i32::MAX {
                Some(SpecValue::I32(n))
            } else {
                None
            },
            None => None,
        },
        TypeHint::I64 => match int_of_text(t) {
            Some(n) => if i64::MIN <= n <= i64::MAX {
                Some(SpecValue::I64(n))
            } else {
                None
            },
            None => None,
        },
        TypeHint::U8 => match int_of_text(t) {
            Some(n) => if 0 <= n <= u8::MAX && !(t.len() > 0 && t[0] == '-') {
                Some(SpecValue::U8(n))
            } else {
                None
            },
            None => None,
        },
        TypeHint::U16 => match int_of_text(t) {
            Some(n) => if 0 <= n <= u16::MAX && !(t.len() > 0 && t[0] == '-') {
                Some(SpecValue::U16(n))
            } else {
                None
            },
            None => None,
        },
        TypeHint::U32 => match int_of_text(t) {
            Some(n) => if 0 <= n <= u32::MAX && !(t.len() > 0 && t[0] == '-') {
                Some(SpecValue::U32(n))
            } else {
                None
            },
            None => None,
        },
        TypeHint::U64 => match int_of_text(t) {
            Some(n) => if 0 <= n <= u64::MAX && !(t.len() > 0 && t[0] == '-') {
                Some(SpecValue::U64(n))
            } else {
                None
            },
            None => None,
        },
        TypeHint::F32 => if is_float_text(t) {
            Some(SpecValue::F32(t))
        } else {
            None
        },
        TypeHint::F64 => if is_float_text(t) {
            Some(SpecValue::F64(t))
        } else {
            None
        },
        TypeHint::Str(m) => if t.len() <= m {
            Some(SpecValue::Str(t))
        } else {
            None
        },
        TypeHint::Bool => if is_true_text(t) {
            Some(SpecValue::Bool(true))
        } else if is_false_text(t) {
            Some(SpecValue::Bool(false))
        } else {
            None
        },
        TypeHint::Null => if is_null_text(t) {
            Some(SpecValue::Null)
        } else {
            None
        },
    }
}

// ---------------------------------------------------------------------------
// Error messages
// ---------------------------------------------------------------------------

/// The message given when a type code cannot be parsed: an `s` code with a
/// bad count is an invalid string type, anything else is unknown.
pub open spec fn hint_err_text(s: Seq<char>) -> Seq<char> {
    if s.len() > 0 && s[0] == 's' {
        "Invalid string type: "@ + s
    } else {
        "Unknown type hint: "@ + s
    }
}

/// The message given when raw text fails to convert under a hint: integer
/// and float failures name the attempted type, a too-long string states the
/// actual and maximum character counts, and the boolean and null messages
/// name the accepted literals.
pub open spec fn conv_err_text(h: TypeHint, t: Seq<char>) -> Seq<char> {
    match h {
        TypeHint::I8 => "Cannot parse '"@ + t + "' as i8"@,
        TypeHint::I16 => "Cannot parse '"@ + t + "' as i16"@,
        TypeHint::I32 => "Cannot parse '"@ + t + "' as i32"@,
        TypeHint::I64 => "Cannot parse '"@ + t + "' as i64"@,
        TypeHint::U8 => "Cannot parse '"@ + t + "' as u8"@,
        TypeHint::U16 => "Cannot parse '"@ + t + "' as u16"@,
        TypeHint::U32 => "Cannot parse '"@ + t + "' as u32"@,
        TypeHint::U64 => "Cannot parse '"@ + t + "' as u64"@,
        TypeHint::F32 => "Cannot parse '"@ + t + "' as f32"@,
        TypeHint::F64 => "Cannot parse '"@ + t + "' as f64"@,
        TypeHint::Str(m) => "String too long: "@ + dec_text(t.len() as int)
            + " characters (max "@ + dec_text(m as int) + ")"@,
        TypeHint::Bool => "Invalid boolean value: '"@ + t + "' (expected t/f or true/false)"@,
        TypeHint::Null => "Invalid null value: '"@ + t + "' (expected empty or 'null')"@,
    }
}

// ---------------------------------------------------------------------------
// Executable integer range parsing
// ---------------------------------------------------------------------------

/// Parses `s` as a signed integer within `[lo, hi]`.
pub(crate) fn parse_in_range_signed(s: &str, lo: i64, hi: i64) -> (r: Option<i64>)
    requires
        lo <= 0 <= hi,
    ensures
        match r {
            Some(n) => int_of_text(s@) == Some(n as int) && lo <= n <= hi,
            None => match int_of_text(s@) {
                Some(m) => m < lo || m > hi,
                None => true,
            },
        },
{
    match parse_int_text(s) {
        Some((neg, mag)) => {
            let v: i128 = if neg {
                -(mag as i128)
            } else {
                mag as i128
            };
            if (lo as i128) <= v && v <= (hi as i128) {
                Some(v as i64)
            } else {
                None
            }
        },
        None => None,
    }
}

/// Parses `s` as an unsigned integer at most `hi`; text with a `-` sign is
/// rejected, as the standard library's unsigned parsing rejects it.
fn parse_in_range_unsigned(s: &str, hi: u64) -> (r: Option<u64>)
    ensures
        match r {
            Some(n) => int_of_text(s@) == Some(n as int) && n <= hi && !(s@.len() > 0 && s@[0]
                == '-'),
            None => match int_of_text(s@) {
                Some(m) => m > hi || (s@.len() > 0 && s@[0] == '-'),
                None => true,
            },
        },
{
    match parse_int_text(s) {
        Some((neg, mag)) => {
            if !neg && mag <= hi {
                Some(mag)
            } else {
                None
            }
        },
        None => {
            proof {
                if int_of_text(s@) is Some {
                    if s@.len() > 0 && (s@[0] == '+' || s@[0] == '-') {
                        if s@[0] == '+' {
                            crate::numtext::lemma_dec_uval_nonneg(s@.skip(1));
                        }
                    } else {
                        crate::numtext::lemma_dec_uval_nonneg(s@);
                    }
                }
            }
            None
        },
    }
}

// ---------------------------------------------------------------------------
// Error message building
// ---------------------------------------------------------------------------

/// `prefix + s + suffix` as an owned string.
pub(crate) fn message_around(prefix: &str, s: &str, suffix: &str) -> (r: String)
    ensures
        r@ == prefix@ + s@ + suffix@,
{
    let m = String::from_str(prefix);
    let m = m.concat(s);
    m.concat(suffix)
}

impl TypeHint {
    /// Parses a type code (e.g. `u32`, `s64`, `b`) into a hint.
    ///
    /// Returns exactly the hint of [`hint_of_text`], or exactly the message
    /// of [`hint_err_text`], which names the offending code.
    pub fn from_str(s: &str) -> (r: Result<TypeHint, String>)
        ensures
            match r {
                Ok(h) => hint_of_text(s@) == Some(h),
                Err(m) => hint_of_text(s@) is None && m@ == hint_err_text(s@),
            },
    {
        proof {
            reveal_strlit("");
        }
        proof {
            reveal_strlit("i8");
            reveal_strlit("i16");
            reveal_strlit("i32");
            reveal_strlit("i64");
            reveal_strlit("u8");
            reveal_strlit("u16");
            reveal_strlit("u32");
            reveal_strlit("u64");
            reveal_strlit("f32");
            reveal_strlit("f64");
            reveal_strlit("b");
            reveal_strlit("n");
            assert("i8"@ =~= hint_text(TypeHint::I8));
            assert("i16"@ =~= hint_text(TypeHint::I16));
            assert("i32"@ =~= hint_text(TypeHint::I32));
            assert("i64"@ =~= hint_text(TypeHint::I64));
            assert("u8"@ =~= hint_text(TypeHint::U8));
            assert("u16"@ =~= hint_text(TypeHint::U16));
            assert("u32"@ =~= hint_text(TypeHint::U32));
            assert("u64"@ =~= hint_text(TypeHint::U64));
            assert("f32"@ =~= hint_text(TypeHint::F32));
            assert("f64"@ =~= hint_text(TypeHint::F64));
            assert("b"@ =~= hint_text(TypeHint::Bool));
            assert("n"@ =~= hint_text(TypeHint::Null));
        }
        if crate::text::str_eq_str(s, "i8") {
            Ok(TypeHint::I8)
        } else if crate::text::str_eq_str(s, "i16") {
            Ok(TypeHint::I16)
        } else if crate::text::str_eq_str(s, "i32") {
            Ok(TypeHint::I32)
        } else if crate::text::str_eq_str(s, "i64") {
            Ok(TypeHint::I64)
        } else if crate::text::str_eq_str(s, "u8") {
            Ok(TypeHint::U8)
        } else if crate::text::str_eq_str(s, "u16") {
            Ok(TypeHint::U16)
        } else if crate::text::str_eq_str(s, "u32") {
            Ok(TypeHint::U32)
        } else if crate::text::str_eq_str(s, "u64") {
            Ok(TypeHint::U64)
        } else if crate::text::str_eq_str(s, "f32") {
            Ok(TypeHint::F32)
        } else if crate::text::str_eq_str(s, "f64") {
            Ok(TypeHint::F64)
        } else if crate::text::str_eq_str(s, "b") {
            Ok(TypeHint::Bool)
        } else if crate::text::str_eq_str(s, "n") {
            Ok(TypeHint::Null)
        } else if s.unicode_len() > 0 && s.get_char(0) == 's' {
            let rest = s.substring_char(1, s.unicode_len());
            proof {
                assert(rest@ =~= s@.skip(1));
            }
            match parse_in_range_unsigned(rest, u64::MAX) {
                Some(n) => {
                    if n <= usize::MAX as u64 {
                        proof {
                            if s@.len() > 1 && s@[1] == '-' {
                                assert(rest@[0] == '-');
                            }
                        }
                        Ok(TypeHint::Str(n as usize))
                    } else {
                        let msg = message_around("Invalid string type: ", s, "");
                        proof {
                            assert(msg@ =~= hint_err_text(s@));
                        }
                        Err(msg)
                    }
                },
                None => {
                    proof {
                        if s@.len() > 1 && s@[1] == '-' {
                            assert(rest@[0] == '-');
                        }
                    }
                    let msg = message_around("Invalid string type: ", s, "");
                    proof {
                        assert(msg@ =~= hint_err_text(s@));
                    }
                    Err(msg)
                },
            }
        } else {
            let msg = message_around("Unknown type hint: ", s, "");
            proof {
                assert(msg@ =~= hint_err_text(s@));
            }
            Err(msg)
        }
    }

    /// The canonical code of this hint; the exact text of [`hint_text`].
    pub fn as_str(&self) -> (r: String)
        ensures
            r@ == hint_text(*self),
    {
        match self {
            TypeHint::I8 => {
                let r = String::from_str("i8");
                proof {
                    reveal_strlit("i8");
                    assert(r@ =~= hint_text(TypeHint::I8));
                }
                r
            },
            TypeHint::I16 => {
                let r = String::from_str("i16");
                proof {
                    reveal_strlit("i16");
                    assert(r@ =~= hint_text(TypeHint::I16));
                }
                r
            },
            TypeHint::I32 => {
                let r = String::from_str("i32");
                proof {
                    reveal_strlit("i32");
                    assert(r@ =~= hint_text(TypeHint::I32));
                }
                r
            },
            TypeHint::I64 => {
                let r = String::from_str("i64");
                proof {
                    reveal_strlit("i64");
                    assert(r@ =~= hint_text(TypeHint::I64));
                }
                r
            },
            TypeHint::U8 => {
                let r = String::from_str("u8");
                proof {
                    reveal_strlit("u8");
                    assert(r@ =~= hint_text(TypeHint::U8));
                }
                r
            },
            TypeHint::U16 => {
                let r = String::from_str("u16");
                proof {
                    reveal_strlit("u16");
                    assert(r@ =~= hint_text(TypeHint::U16));
                }
                r
            },
            TypeHint::U32 => {
                let r = String::from_str("u32");
                proof {
                    reveal_strlit("u32");
                    assert(r@ =~= hint_text(TypeHint::U32));
                }
                r
            },
            TypeHint::U64 => {
                let r = String::from_str("u64");
                proof {
                    reveal_strlit("u64");
                    assert(r@ =~= hint_text(TypeHint::U64));
                }
                r
            },
            TypeHint::F32 => {
                let r = String::from_str("f32");
                proof {
                    reveal_strlit("f32");
                    assert(r@ =~= hint_text(TypeHint::F32));
                }
                r
            },
            TypeHint::F64 => {
                let r = String::from_str("f64");
                proof {
                    reveal_strlit("f64");
                    assert(r@ =~= hint_text(TypeHint::F64));
                }
                r
            },
            TypeHint::Str(n) => {
                let mut out: Vec<char> = Vec::new();
                out.push('s');
                crate::numtext::push_u64_text(&mut out, *n as u64);
                let r = chars_to_string(&out);
                proof {
                    assert(out@ =~= seq!['s'] + dec_text(*n as int));
                }
                r
            },
            TypeHint::Bool => {
                let r = String::from_str("b");
                proof {
                    reveal_strlit("b");
                    assert(r@ =~= hint_text(TypeHint::Bool));
                }
                r
            },
            TypeHint::Null => {
                let r = String::from_str("n");
                proof {
                    reveal_strlit("n");
                    assert(r@ =~= hint_text(TypeHint::Null));
                }
                r
            },
        }
    }

    /// Converts raw text into a value of this hint's type, validating
    /// integer range, float shape, string length, and the boolean and null
    /// literals. Returns exactly the value of [`hint_conv`], or exactly the
    /// message of [`conv_err_text`].
    pub fn parse_value(&self, s: &str) -> (r: Result<Value, String>)
        ensures
            match r {
                Ok(v) => hint_conv(*self, s@) == Some(v@),
                Err(m) => hint_conv(*self, s@) is None && m@ == conv_err_text(*self, s@),
            },
    {
        match self {
            TypeHint::I8 => match parse_in_range_signed(s, -128, 127) {
                Some(n) => Ok(Value::I8(n as i8)),
                None => Err(message_around("Cannot parse '", s, "' as i8")),
            },
            TypeHint::I16 => match parse_in_range_signed(s, -32768, 32767) {
                Some(n) => Ok(Value::I16(n as i16)),
                None => Err(message_around("Cannot parse '", s, "' as i16")),
            },
            TypeHint::I32 => match parse_in_range_signed(s, -2147483648, 2147483647) {
                Some(n) => Ok(Value::I32(n as i32)),
                None => Err(message_around("Cannot parse '", s, "' as i32")),
            },
            TypeHint::I64 => match parse_in_range_signed(s, i64::MIN, i64::MAX) {
                Some(n) => Ok(Value::I64(n)),
                None => Err(message_around("Cannot parse '", s, "' as i64")),
            },
            TypeHint::U8 => match parse_in_range_unsigned(s, 255) {
                Some(n) => Ok(Value::U8(n as u8)),
                None => Err(message_around("Cannot parse '", s, "' as u8")),
            },
            TypeHint::U16 => match parse_in_range_unsigned(s, 65535) {
                Some(n) => Ok(Value::U16(n as u16)),
                None => Err(message_around("Cannot parse '", s, "' as u16")),
            },
            TypeHint::U32 => match parse_in_range_unsigned(s, 4294967295) {
                Some(n) => Ok(Value::U32(n as u32)),
                None => Err(message_around("Cannot parse '", s, "' as u32")),
            },
            TypeHint::U64 => match parse_in_range_unsigned(s, u64::MAX) {
                Some(n) => Ok(Value::U64(n)),
                None => Err(message_around("Cannot parse '", s, "' as u64")),
            },
            TypeHint::F32 => {
                if crate::numtext::check_float_text(s) {
                    Ok(Value::F32(s.to_owned()))
                } else {
                    Err(message_around("Cannot parse '", s, "' as f32"))
                }
            },
            TypeHint::F64 => {
                if crate::numtext::check_float_text(s) {
                    Ok(Value::F64(s.to_owned()))
                } else {
                    Err(message_around("Cannot parse '", s, "' as f64"))
                }
            },
            TypeHint::Str(max_len) => {
                let count = s.unicode_len();
                if count <= *max_len {
                    Ok(Value::Str(s.to_owned()))
                } else {
                    let mut msg: Vec<char> = Vec::new();
                    crate::text::push_str_chars(&mut msg, "String too long: ");
                    crate::numtext::push_u64_text(&mut msg, count as u64);
                    crate::text::push_str_chars(&mut msg, " characters (max ");
                    crate::numtext::push_u64_text(&mut msg, *max_len as u64);
                    crate::text::push_str_chars(&mut msg, ")");
                    let m = chars_to_string(&msg);
                    proof {
                        assert(m@ =~= conv_err_text(*self, s@));
                    }
                    Err(m)
                }
            },
            TypeHint::Bool => {
                let n = s.unicode_len();
                if n == 1 && s.get_char(0) == 't' {
                    Ok(Value::Bool(true))
                } else if n == 4 && s.get_char(0) == 't' && s.get_char(1) == 'r' && s.get_char(2)
                    == 'u' && s.get_char(3) == 'e' {
                    Ok(Value::Bool(true))
                } else if n == 1 && s.get_char(0) == 'f' {
                    Ok(Value::Bool(false))
                } else if n == 5 && s.get_char(0) == 'f' && s.get_char(1) == 'a' && s.get_char(2)
                    == 'l' && s.get_char(3) == 's' && s.get_char(4) == 'e' {
                    Ok(Value::Bool(false))
                } else {
                    Err(
                        message_around(
                            "Invalid boolean value: '",
                            s,
                            "' (expected t/f or true/false)",
                        ),
                    )
                }
            },
            TypeHint::Null => {
                let n = s.unicode_len();
                if n == 0 {
                    Ok(Value::Null)
                } else if n == 4 && s.get_char(0) == 'n' && s.get_char(1) == 'u' && s.get_char(2)
                    == 'l' && s.get_char(3) == 'l' {
                    Ok(Value::Null)
                } else {
                    Err(message_around("Invalid null value: '", s, "' (expected empty or 'null')"))
                }
            },
        }
    }
}

} // verus!

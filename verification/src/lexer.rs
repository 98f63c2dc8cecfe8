//! The GBLN lexer: tokens on demand from a character cursor, with 1-based
//! line and column tracking, and a second raw reading mode for parenthesized
//! content.

use vstd::prelude::*;
use crate::error::{Error, ErrorKind};
use crate::text::{
    chars_to_string, is_digit_char, is_ident_cont_char, is_ident_start_char, is_numericish_char,
    is_ws_char,
};

verus! {

/// A token of the GBLN input stream.
#[derive(Debug, Clone, PartialEq)]
pub enum Token {
    /// An identifier, numeral, or raw word (a key or a scalar literal).
    Key(String),
    /// A type code between angle brackets. The lexer itself never produces
    /// this variant; the parser accepts it interchangeably with `Key`.
    Type(String),
    LParen,
    RParen,
    LBrace,
    RBrace,
    LBracket,
    RBracket,
    LAngle,
    RAngle,
    Eof,
}

/// Ghost model of a lexing step's outcome: a token, or `Bad` for a
/// character that cannot start any token.
pub ghost enum SpecTok {
    Key(Seq<char>),
    LParen,
    RParen,
    LBrace,
    RBrace,
    LBracket,
    RBracket,
    LAngle,
    RAngle,
    Eof,
    Bad,
}

/// The model of a token.
pub open spec fn tok_view(t: Token) -> SpecTok {
    match t {
        Token::Key(s) => SpecTok::Key(s@),
        Token::Type(s) => SpecTok::Key(s@),
        Token::LParen => SpecTok::LParen,
        Token::RParen => SpecTok::RParen,
        Token::LBrace => SpecTok::LBrace,
        Token::RBrace => SpecTok::RBrace,
        Token::LBracket => SpecTok::LBracket,
        Token::RBracket => SpecTok::RBracket,
        Token::LAngle => SpecTok::LAngle,
        Token::RAngle => SpecTok::RAngle,
        Token::Eof => SpecTok::Eof,
    }
}

// ---------------------------------------------------------------------------
// Position model: 1-based line and column
// ---------------------------------------------------------------------------

/// The 1-based line of character position `i`.
pub open spec fn line_of(s: Seq<char>, i: int) -> int
    decreases i,
{
    if i <= 0 {
        1
    } else if s[i - 1] == '\n' {
        line_of(s, i - 1) + 1
    } else {
        line_of(s, i - 1)
    }
}

/// The 1-based column of character position `i`: columns restart at 1
/// after every newline.
pub open spec fn col_of(s: Seq<char>, i: int) -> int
    decreases i,
{
    if i <= 0 {
        1
    } else if s[i - 1] == '\n' {
        1
    } else {
        col_of(s, i - 1) + 1
    }
}

pub proof fn lemma_pos_bounds(s: Seq<char>, i: int)
    ensures
        1 <= line_of(s, i),
        1 <= col_of(s, i),
        i >= 0 ==> line_of(s, i) <= i + 1 && col_of(s, i) <= i + 1,
    decreases i,
{
    if i > 0 {
        lemma_pos_bounds(s, i - 1);
    }
}

// ---------------------------------------------------------------------------
// Trivia model: whitespace and comments
// ---------------------------------------------------------------------------

/// The position just after the current line: the next newline (which stays
/// unconsumed) or the end of input.
pub open spec fn line_end(s: Seq<char>, i: int) -> int
    decreases s.len() - i,
{
    if 0 <= i < s.len() && s[i] != '\n' {
        line_end(s, i + 1)
    } else {
        i
    }
}

pub proof fn lemma_line_end_bounds(s: Seq<char>, i: int)
    requires
        0 <= i <= s.len(),
    ensures
        i <= line_end(s, i) <= s.len(),
    decreases s.len() - i,
{
    if i < s.len() && s[i] != '\n' {
        lemma_line_end_bounds(s, i + 1);
    }
}

/// The first position at or after `i` that holds neither whitespace nor a
/// `:|` comment. A lone `:` not followed by `|` stops the scan, left in
/// place for tokenization to fail on.
pub open spec fn skip_ws(s: Seq<char>, i: int) -> int
    decreases s.len() - i, 0int,
        when 0 <= i <= s.len()
        via skip_ws_decreases
{
    if i >= s.len() {
        i
    } else if is_ws_char(s[i]) {
        skip_ws(s, i + 1)
    } else if s[i] == ':' && i + 1 < s.len() && s[i + 1] == '|' {
        skip_ws(s, line_end(s, i + 2))
    } else {
        i
    }
}

#[via_fn]
proof fn skip_ws_decreases(s: Seq<char>, i: int) {
    if 0 <= i < s.len() && !is_ws_char(s[i]) && s[i] == ':' && i + 1 < s.len() && s[i + 1] == '|' {
        lemma_line_end_bounds(s, i + 2);
    }
}

pub proof fn lemma_skip_ws_bounds(s: Seq<char>, i: int)
    requires
        0 <= i <= s.len(),
    ensures
        i <= skip_ws(s, i) <= s.len(),
    decreases s.len() - i,
{
    if i < s.len() {
        if is_ws_char(s[i]) {
            lemma_skip_ws_bounds(s, i + 1);
        } else if s[i] == ':' && i + 1 < s.len() && s[i + 1] == '|' {
            lemma_line_end_bounds(s, i + 2);
            lemma_skip_ws_bounds(s, line_end(s, i + 2));
        }
    }
}

// ---------------------------------------------------------------------------
// Identifier model
// ---------------------------------------------------------------------------

/// The end of an identifier whose scan stands at `k`, has already seen a
/// decimal point iff `has_dot`, and whose text so far is all digits and
/// hyphens iff `numericish`. One decimal point is accepted while the text
/// is still numeric, so numerals like `3.14` and `-1.5` lex as one token.
pub open spec fn ident_end_from(s: Seq<char>, k: int, has_dot: bool, numericish: bool) -> int
    decreases s.len() - k,
{
    if !(0 <= k < s.len()) {
        k
    } else if is_ident_cont_char(s[k]) {
        ident_end_from(s, k + 1, has_dot, numericish && is_numericish_char(s[k]))
    } else if s[k] == '.' && !has_dot && numericish {
        ident_end_from(s, k + 1, true, false)
    } else {
        k
    }
}

/// The end of the identifier starting at `j` (whose first character is
/// consumed unconditionally).
pub open spec fn ident_end(s: Seq<char>, j: int) -> int {
    ident_end_from(s, j + 1, false, is_numericish_char(s[j]))
}

pub proof fn lemma_ident_end_from_bounds(s: Seq<char>, k: int, has_dot: bool, numericish: bool)
    requires
        0 <= k <= s.len(),
    ensures
        k <= ident_end_from(s, k, has_dot, numericish) <= s.len(),
    decreases s.len() - k,
{
    if k < s.len() {
        if is_ident_cont_char(s[k]) {
            lemma_ident_end_from_bounds(s, k + 1, has_dot, numericish && is_numericish_char(s[k]));
        } else if s[k] == '.' && !has_dot && numericish {
            lemma_ident_end_from_bounds(s, k + 1, true, false);
        }
    }
}

// ---------------------------------------------------------------------------
// Token model
// ---------------------------------------------------------------------------

/// A character that starts an identifier token: letter, underscore, digit,
/// or minus sign.
pub open spec fn starts_ident_tok(c: char) -> bool {
    is_ident_start_char(c) || is_digit_char(c) || c == '-'
}

/// The next token from raw position `p`, and the position just after it:
/// whitespace and comments are skipped, single characters `(){}[]<>` map to
/// their tokens, identifier starters begin an identifier, the end of input
/// gives `Eof`, and anything else is `Bad`.
pub open spec fn next_tok(s: Seq<char>, p: int) -> (SpecTok, int) {
    let j = skip_ws(s, p);
    if j >= s.len() {
        (SpecTok::Eof, j)
    } else if s[j] == '(' {
        (SpecTok::LParen, j + 1)
    } else if s[j] == ')' {
        (SpecTok::RParen, j + 1)
    } else if s[j] == '{' {
        (SpecTok::LBrace, j + 1)
    } else if s[j] == '}' {
        (SpecTok::RBrace, j + 1)
    } else if s[j] == '[' {
        (SpecTok::LBracket, j + 1)
    } else if s[j] == ']' {
        (SpecTok::RBracket, j + 1)
    } else if s[j] == '<' {
        (SpecTok::LAngle, j + 1)
    } else if s[j] == '>' {
        (SpecTok::RAngle, j + 1)
    } else if starts_ident_tok(s[j]) {
        (SpecTok::Key(s.subrange(j, ident_end(s, j))), ident_end(s, j))
    } else {
        (SpecTok::Bad, j)
    }
}

pub proof fn lemma_next_tok_bounds(s: Seq<char>, p: int)
    requires
        0 <= p <= s.len(),
    ensures
        p <= next_tok(s, p).1 <= s.len(),
        !(next_tok(s, p).0 is Eof) && !(next_tok(s, p).0 is Bad) ==> next_tok(s, p).1 > p,
        next_tok(s, p).0 is Eof ==> next_tok(s, p).1 == s.len(),
{
    lemma_skip_ws_bounds(s, p);
    let j = skip_ws(s, p);
    if j < s.len() && starts_ident_tok(s[j]) {
        lemma_ident_end_from_bounds(s, j + 1, false, is_numericish_char(s[j]));
    }
}

// ---------------------------------------------------------------------------
// Raw parenthesized content model
// ---------------------------------------------------------------------------

/// The position of the closing parenthesis that matches at nesting depth
/// `depth`, scanning from `i`; `None` when the input ends first.
pub open spec fn raw_end(s: Seq<char>, i: int, depth: int) -> Option<int>
    decreases s.len() - i,
{
    if !(0 <= i < s.len()) {
        None
    } else if s[i] == ')' {
        if depth == 0 {
            Some(i)
        } else {
            raw_end(s, i + 1, depth - 1)
        }
    } else if s[i] == '(' {
        raw_end(s, i + 1, depth + 1)
    } else {
        raw_end(s, i + 1, depth)
    }
}

pub proof fn lemma_raw_end_bounds(s: Seq<char>, i: int, depth: int)
    requires
        0 <= i <= s.len(),
    ensures
        raw_end(s, i, depth) matches Some(e) ==> i <= e < s.len(),
    decreases s.len() - i,
{
    if i < s.len() {
        if s[i] == ')' {
            if depth != 0 {
                lemma_raw_end_bounds(s, i + 1, depth - 1);
            }
        } else if s[i] == '(' {
            lemma_raw_end_bounds(s, i + 1, depth + 1);
        } else {
            lemma_raw_end_bounds(s, i + 1, depth);
        }
    }
}

// ---------------------------------------------------------------------------
// The lexer
// ---------------------------------------------------------------------------

/// A lexer over GBLN input: a character cursor with line/column counters,
/// producing one token at a time.
pub struct Lexer<'a> {
    input: &'a str,
    len: usize,
    pos: usize,
    line: usize,
    col: usize,
}

impl<'a> Lexer<'a> {
    /// The input being lexed.
    pub closed spec fn src(&self) -> Seq<char> {
        self.input@
    }

    /// The current character position.
    pub closed spec fn at(&self) -> int {
        self.pos as int
    }

    /// The lexer's internal consistency: the cursor is inside the input and
    /// the line/column counters describe the cursor position.
    pub closed spec fn inv(&self) -> bool {
        &&& self.len == self.input@.len()
        &&& self.input@.len() < usize::MAX
        &&& self.pos <= self.len
        &&& self.line == line_of(self.input@, self.pos as int)
        &&& self.col == col_of(self.input@, self.pos as int)
    }

    /// The cursor stays inside the input.
    pub proof fn lemma_inv_bounds(&self)
        requires
            self.inv(),
        ensures
            0 <= self.at() <= self.src().len(),
            self.src().len() < usize::MAX,
    {
    }

    /// A lexer at the start of `input`.
    pub fn new(input: &'a str) -> (r: Lexer<'a>)
        requires
            input@.len() < usize::MAX,
        ensures
            r.inv(),
            r.src() == input@,
            r.at() == 0,
    {
        Lexer { input, len: input.unicode_len(), pos: 0, line: 1, col: 1 }
    }

    /// The character under the cursor.
    fn peek_char(&self) -> (c: char)
        requires
            self.inv(),
            self.at() < self.src().len(),
        ensures
            c == self.src()[self.at()],
    {
        self.input.get_char(self.pos)
    }

    /// Consumes one character, advancing the line/column counters.
    fn advance(&mut self)
        requires
            old(self).inv(),
            old(self).at() < old(self).src().len(),
        ensures
            final(self).inv(),
            final(self).src() == old(self).src(),
            final(self).at() == old(self).at() + 1,
    {
        proof {
            lemma_pos_bounds(self.input@, self.pos as int);
        }
        let c = self.input.get_char(self.pos);
        if c == '\n' {
            self.line = self.line + 1;
            self.col = 1;
        } else {
            self.col = self.col + 1;
        }
        self.pos = self.pos + 1;
    }

    /// Current 1-based line number.
    pub fn current_line(&self) -> (r: usize)
        requires
            self.inv(),
        ensures
            r as int == line_of(self.src(), self.at()),
    {
        self.line
    }

    /// Current 1-based column number.
    pub fn current_column(&self) -> (r: usize)
        requires
            self.inv(),
        ensures
            r as int == col_of(self.src(), self.at()),
    {
        self.col
    }

    /// Skips whitespace and `:|` comments; stops on a lone `:`.
    fn skip_whitespace_and_comments(&mut self)
        requires
            old(self).inv(),
        ensures
            final(self).inv(),
            final(self).src() == old(self).src(),
            final(self).at() == skip_ws(old(self).src(), old(self).at()),
    {
        let ghost s = self.input@;
        let ghost p0 = self.pos as int;
        loop
            invariant
                self.inv(),
                self.src() == s,
                s == old(self).src(),
                0 <= p0 <= self.pos as int,
                p0 == old(self).at(),
                skip_ws(s, p0) == skip_ws(s, self.pos as int),
            decreases s.len() - self.pos,
        {
            if self.pos >= self.len {
                return ;
            }
            let c = self.peek_char();
            if c == ' ' || c == '\t' || c == '\n' || c == '\r' {
                self.advance();
            } else if c == ':' && self.pos + 1 < self.len && self.input.get_char(self.pos + 1)
                == '|' {
                let ghost com = self.pos as int;
                self.advance();
                self.advance();
                // run to the end of the comment line
                while self.pos < self.len && self.input.get_char(self.pos) != '\n'
                    invariant
                        self.inv(),
                        self.src() == s,
                        s == old(self).src(),
                        0 <= p0 <= com,
                        p0 == old(self).at(),
                        skip_ws(s, p0) == skip_ws(s, com),
                        com < s.len(),
                        s[com] == ':' && com + 1 < s.len() && s[com + 1] == '|',
                        com + 2 <= self.pos as int <= s.len(),
                        line_end(s, com + 2) == line_end(s, self.pos as int),
                    decreases s.len() - self.pos,
                {
                    self.advance();
                }
                proof {
                    assert(line_end(s, com + 2) == self.pos as int);
                }
            } else {
                return ;
            }
        }
    }

    /// Reads an identifier token starting at the cursor.
    fn read_identifier(&mut self) -> (r: Token)
        requires
            old(self).inv(),
            old(self).at() < old(self).src().len(),
            starts_ident_tok(old(self).src()[old(self).at()]),
        ensures
            final(self).inv(),
            final(self).src() == old(self).src(),
            final(self).at() == ident_end(old(self).src(), old(self).at()),
            tok_view(r) == SpecTok::Key(
                old(self).src().subrange(old(self).at(), final(self).at()),
            ),
    {
        let ghost s = self.input@;
        let ghost j = self.pos as int;
        let mut text: Vec<char> = Vec::new();
        let first = self.peek_char();
        text.push(first);
        self.advance();
        let mut has_dot = false;
        let mut numericish = (first >= '0' && first <= '9') || first == '-';
        proof {
            assert(numericish == is_numericish_char(s[j]));
            assert(text@ =~= s.subrange(j, self.pos as int));
        }
        loop
            invariant
                self.inv(),
                self.src() == s,
                s == old(self).src(),
                j == old(self).at(),
                0 <= j < self.pos as int <= s.len(),
                text@ == s.subrange(j, self.pos as int),
                ident_end(s, j) == ident_end_from(s, self.pos as int, has_dot, numericish),
            ensures
                self.inv(),
                self.src() == s,
                0 <= j < self.pos as int <= s.len(),
                text@ == s.subrange(j, self.pos as int),
                ident_end(s, j) == self.pos as int,
            decreases s.len() - self.pos,
        {
            if self.pos >= self.len {
                break ;
            }
            let c = self.peek_char();
            let cont = (c >= 'a' && c <= 'z') || (c >= 'A' && c <= 'Z') || (c >= '0' && c <= '9')
                || c == '_' || c == '-';
            if cont {
                text.push(c);
                let ghost before = self.pos as int;
                self.advance();
                numericish = numericish && ((c >= '0' && c <= '9') || c == '-');
                proof {
                    assert(text@ =~= s.subrange(j, self.pos as int));
                }
            } else if c == '.' && !has_dot && numericish {
                text.push(c);
                self.advance();
                has_dot = true;
                numericish = false;
                proof {
                    assert(text@ =~= s.subrange(j, self.pos as int));
                }
            } else {
                break ;
            }
        }
        Token::Key(chars_to_string(&text))
    }

    /// Produces the next token, or an error at the first character that can
    /// start none. The cursor ends just after the token, or at the
    /// offending character on error.
    pub fn next_token(&mut self) -> (r: Result<Token, Error>)
        requires
            old(self).inv(),
        ensures
            final(self).inv(),
            final(self).src() == old(self).src(),
            match r {
                Ok(t) => {
                    &&& next_tok(old(self).src(), old(self).at()) == (
                        tok_view(t),
                        final(self).at(),
                    )
                    &&& !(tok_view(t) is Bad)
                },
                Err(e) => {
                    &&& next_tok(old(self).src(), old(self).at()).0 is Bad
                    &&& final(self).at() == skip_ws(old(self).src(), old(self).at())
                    &&& e.kind == ErrorKind::UnexpectedCharacter
                    &&& e.line as int == line_of(final(self).src(), final(self).at())
                    &&& e.column as int == col_of(final(self).src(), final(self).at())
                },
            },
    {
        self.skip_whitespace_and_comments();
        if self.pos >= self.len {
            return Ok(Token::Eof);
        }
        let c = self.peek_char();
        if c == '(' {
            self.advance();
            Ok(Token::LParen)
        } else if c == ')' {
            self.advance();
            Ok(Token::RParen)
        } else if c == '{' {
            self.advance();
            Ok(Token::LBrace)
        } else if c == '}' {
            self.advance();
            Ok(Token::RBrace)
        } else if c == '[' {
            self.advance();
            Ok(Token::LBracket)
        } else if c == ']' {
            self.advance();
            Ok(Token::RBracket)
        } else if c == '<' {
            self.advance();
            Ok(Token::LAngle)
        } else if c == '>' {
            self.advance();
            Ok(Token::RAngle)
        } else if (c >= 'a' && c <= 'z') || (c >= 'A' && c <= 'Z') || (c >= '0' && c <= '9') || c
            == '_' || c == '-' {
            Ok(self.read_identifier())
        } else {
            let mut quoted: Vec<char> = Vec::new();
            quoted.push(c);
            let cs = chars_to_string(&quoted);
            let msg = crate::types::message_around("Unexpected character: '", cs.as_str(), "'");
            Err(Error::new(ErrorKind::UnexpectedCharacter, self.current_line(),
                self.current_column(), msg))
        }
    }

    /// Reads raw content up to and including the parenthesis that closes
    /// the currently open one; literal `(`/`)` pairs inside stay in the
    /// content. On success the returned string is exactly the characters
    /// before that parenthesis, and the cursor stands just after it.
    pub fn read_parenthesized_content(&mut self) -> (r: Result<String, Error>)
        requires
            old(self).inv(),
        ensures
            final(self).inv(),
            final(self).src() == old(self).src(),
            match r {
                Ok(content) => {
                    &&& raw_end(old(self).src(), old(self).at(), 0) == Some(final(self).at() - 1)
                    &&& content@ == old(self).src().subrange(
                        old(self).at(),
                        final(self).at() - 1,
                    )
                },
                Err(e) => {
                    &&& raw_end(old(self).src(), old(self).at(), 0) is None
                    &&& e.kind == ErrorKind::UnexpectedEof
                },
            },
    {
        let ghost s = self.input@;
        let ghost p0 = self.pos as int;
        let mut content: Vec<char> = Vec::new();
        let mut depth: usize = 0;
        proof {
            assert(content@ =~= s.subrange(p0, p0));
        }
        loop
            invariant
                self.inv(),
                self.src() == s,
                s == old(self).src(),
                p0 == old(self).at(),
                0 <= p0 <= self.pos as int <= s.len(),
                depth <= self.pos as int - p0,
                content@ == s.subrange(p0, self.pos as int),
                raw_end(s, p0, 0) == raw_end(s, self.pos as int, depth as int),
            decreases s.len() - self.pos,
        {
            if self.pos >= self.len {
                let msg = String::from_str(
                    "Unexpected end of input while reading parenthesized content",
                );
                return Err(Error::new(ErrorKind::UnexpectedEof, self.current_line(),
                    self.current_column(), msg));
            }
            let c = self.peek_char();
            if c == ')' {
                if depth == 0 {
                    self.advance();
                    return Ok(chars_to_string(&content));
                }
                depth = depth - 1;
                content.push(c);
                self.advance();
                proof {
                    assert(content@ =~= s.subrange(p0, self.pos as int));
                }
            } else if c == '(' {
                depth = depth + 1;
                content.push(c);
                self.advance();
                proof {
                    assert(content@ =~= s.subrange(p0, self.pos as int));
                }
            } else {
                content.push(c);
                self.advance();
                proof {
                    assert(content@ =~= s.subrange(p0, self.pos as int));
                }
            }
        }
    }
}

} // verus!

//! The lexer: source bytes to tokens. Whitespace and `#` comments separate
//! tokens; operators are matched longest first; string literals are split
//! into text and interpolated expression parts.

use vstd::prelude::*;
use vstd::string::StringSliceAdditionalSpecFns;
use vstd::utf8::{decode_utf8, is_char_boundary, is_continuation_byte};

use crate::source::Span;
use crate::text::push_char;

verus! {

broadcast use vstd::std_specs::vec::group_vec_axioms;

/// The kinds of tokens. A float literal is kept as its source text.
#[derive(Debug, PartialEq)]
pub enum TokenKind {
    Ident(String),
    Int(i64),
    Float(String),
    Str(Vec<StringPart>),
    LParen,
    RParen,
    LBrace,
    RBrace,
    LBracket,
    RBracket,
    Colon,
    Semi,
    Comma,
    Dot,
    Question,
    Plus,
    Minus,
    Star,
    Slash,
    Percent,
    PlusPlus,
    Eq,
    EqEq,
    Bang,
    BangEq,
    Lt,
    LtEq,
    Gt,
    GtEq,
    AndAnd,
    OrOr,
    Pipe,
    Arrow,
    FatArrow,
    Eof,
}

/// A piece of a string literal: literal text, or the source text of an
/// interpolated expression.
#[derive(Debug, PartialEq)]
pub enum StringPart {
    Text(String),
    Expr(String),
}

/// A token with the bytes it spans.
#[derive(Debug)]
pub struct Token {
    pub kind: TokenKind,
    pub span: Span,
}

/// A lexical error: its code, message and the bytes it concerns.
#[derive(Debug)]
pub struct Diagnostic {
    pub code: &'static str,
    pub message: String,
    pub span: Span,
}

/// The model of a string literal piece.
pub enum SpecPart {
    Text(Seq<char>),
    Expr(Seq<char>),
}

/// The model of a token kind.
pub enum SpecKind {
    Ident(Seq<char>),
    Int(i64),
    Float(Seq<char>),
    Str(Seq<SpecPart>),
    LParen,
    RParen,
    LBrace,
    RBrace,
    LBracket,
    RBracket,
    Colon,
    Semi,
    Comma,
    Dot,
    Question,
    Plus,
    Minus,
    Star,
    Slash,
    Percent,
    PlusPlus,
    Eq,
    EqEq,
    Bang,
    BangEq,
    Lt,
    LtEq,
    Gt,
    GtEq,
    AndAnd,
    OrOr,
    Pipe,
    Arrow,
    FatArrow,
    Eof,
}

/// The model of a token: its kind and byte range.
pub struct SpecToken {
    pub kind: SpecKind,
    pub start: int,
    pub end: int,
}

/// The model of a lexical error: its code, message and byte range.
pub struct SpecLexError {
    pub code: Seq<char>,
    pub message: Seq<char>,
    pub start: int,
    pub end: int,
}

pub open spec fn part_view(p: StringPart) -> SpecPart {
    match p {
        StringPart::Text(t) => SpecPart::Text(t@),
        StringPart::Expr(t) => SpecPart::Expr(t@),
    }
}

pub open spec fn parts_view(ps: Seq<StringPart>) -> Seq<SpecPart> {
    ps.map_values(|p: StringPart| part_view(p))
}

pub open spec fn kind_view(k: TokenKind) -> SpecKind {
    match k {
        TokenKind::Ident(s) => SpecKind::Ident(s@),
        TokenKind::Int(v) => SpecKind::Int(v),
        TokenKind::Float(s) => SpecKind::Float(s@),
        TokenKind::Str(ps) => SpecKind::Str(parts_view(ps@)),
        TokenKind::LParen => SpecKind::LParen,
        TokenKind::RParen => SpecKind::RParen,
        TokenKind::LBrace => SpecKind::LBrace,
        TokenKind::RBrace => SpecKind::RBrace,
        TokenKind::LBracket => SpecKind::LBracket,
        TokenKind::RBracket => SpecKind::RBracket,
        TokenKind::Colon => SpecKind::Colon,
        TokenKind::Semi => SpecKind::Semi,
        TokenKind::Comma => SpecKind::Comma,
        TokenKind::Dot => SpecKind::Dot,
        TokenKind::Question => SpecKind::Question,
        TokenKind::Plus => SpecKind::Plus,
        TokenKind::Minus => SpecKind::Minus,
        TokenKind::Star => SpecKind::Star,
        TokenKind::Slash => SpecKind::Slash,
        TokenKind::Percent => SpecKind::Percent,
        TokenKind::PlusPlus => SpecKind::PlusPlus,
        TokenKind::Eq => SpecKind::Eq,
        TokenKind::EqEq => SpecKind::EqEq,
        TokenKind::Bang => SpecKind::Bang,
        TokenKind::BangEq => SpecKind::BangEq,
        TokenKind::Lt => SpecKind::Lt,
        TokenKind::LtEq => SpecKind::LtEq,
        TokenKind::Gt => SpecKind::Gt,
        TokenKind::GtEq => SpecKind::GtEq,
        TokenKind::AndAnd => SpecKind::AndAnd,
        TokenKind::OrOr => SpecKind::OrOr,
        TokenKind::Pipe => SpecKind::Pipe,
        TokenKind::Arrow => SpecKind::Arrow,
        TokenKind::FatArrow => SpecKind::FatArrow,
        TokenKind::Eof => SpecKind::Eof,
    }
}

pub open spec fn token_view(t: Token) -> SpecToken {
    SpecToken { kind: kind_view(t.kind), start: t.span.start as int, end: t.span.end as int }
}

pub open spec fn tokens_view(ts: Seq<Token>) -> Seq<SpecToken> {
    ts.map_values(|t: Token| token_view(t))
}

pub open spec fn diag_view(d: Diagnostic) -> SpecLexError {
    SpecLexError { code: d.code@, message: d.message@, start: d.span.start as int, end: d.span.end as int }
}

pub open spec fn lex_error(code: Seq<char>, message: Seq<char>, start: int, end: int) -> SpecLexError {
    SpecLexError { code, message, start, end }
}

pub open spec fn is_digit(c: u8) -> bool {
    48 <= c <= 57
}

pub open spec fn is_ident_start_spec(c: u8) -> bool {
    (97 <= c <= 122) || c == 95
}

pub open spec fn is_upper_start_spec(c: u8) -> bool {
    65 <= c <= 90
}

pub open spec fn is_ident_rest_spec(c: u8) -> bool {
    is_ident_start_spec(c) || is_upper_start_spec(c) || is_digit(c) || c == 45
}

pub open spec fn is_ws_byte(c: u8) -> bool {
    c == 32 || c == 9 || c == 10 || c == 13
}

/// The characters of ASCII bytes, one per byte.
pub open spec fn byte_chars(d: Seq<u8>) -> Seq<char> {
    d.map_values(|c: u8| c as char)
}

/// Where a comment whose text starts at `pos` ends: just past its newline,
/// or at the end of the input.
pub open spec fn comment_end(b: Seq<u8>, pos: int) -> int
    decreases b.len() - pos,
{
    if pos < 0 || pos >= b.len() {
        pos
    } else if b[pos] == 10 {
        pos + 1
    } else {
        comment_end(b, pos + 1)
    }
}

pub proof fn lemma_comment_end(b: Seq<u8>, pos: int)
    ensures
        comment_end(b, pos) >= pos,
        0 <= pos ==> comment_end(b, pos) <= b.len() || comment_end(b, pos) == pos,
    decreases b.len() - pos,
{
    if 0 <= pos < b.len() && b[pos] != 10 {
        lemma_comment_end(b, pos + 1);
    }
}

/// The first position at or after `pos` that is neither whitespace nor in
/// a comment.
pub open spec fn skip_spec(b: Seq<u8>, pos: int) -> int
    decreases b.len() - pos,
{
    if 0 <= pos < b.len() && is_ws_byte(b[pos]) {
        skip_spec(b, pos + 1)
    } else if 0 <= pos < b.len() && b[pos] == 35 {
        proof {
            lemma_comment_end(b, pos + 1);
        }
        skip_spec(b, comment_end(b, pos + 1))
    } else {
        pos
    }
}

/// The end of the run of bytes satisfying `digits` (when `ident` is false)
/// or identifier characters (when it is true) starting at `pos`.
pub open spec fn run_end(b: Seq<u8>, pos: int, ident: bool) -> int
    decreases b.len() - pos,
{
    if 0 <= pos < b.len() && (if ident { is_ident_rest_spec(b[pos]) } else { is_digit(b[pos]) }) {
        run_end(b, pos + 1, ident)
    } else {
        pos
    }
}

/// The value of a run of decimal digits.
pub open spec fn digits_value(d: Seq<u8>) -> nat
    decreases d.len(),
{
    if d.len() == 0 {
        0
    } else {
        digits_value(d.drop_last()) * 10 + (d.last() - 48) as nat
    }
}

/// An operator or punctuation token at `pos`, longest match first, with
/// the position just past it.
pub open spec fn sym_spec(b: Seq<u8>, pos: int) -> Option<(SpecKind, int)> {
    let c = b[pos];
    let next_is = |x: u8| pos + 1 < b.len() && b[pos + 1] == x;
    if c == 40 { Some((SpecKind::LParen, pos + 1)) }
    else if c == 41 { Some((SpecKind::RParen, pos + 1)) }
    else if c == 123 { Some((SpecKind::LBrace, pos + 1)) }
    else if c == 125 { Some((SpecKind::RBrace, pos + 1)) }
    else if c == 91 { Some((SpecKind::LBracket, pos + 1)) }
    else if c == 93 { Some((SpecKind::RBracket, pos + 1)) }
    else if c == 58 { Some((SpecKind::Colon, pos + 1)) }
    else if c == 59 { Some((SpecKind::Semi, pos + 1)) }
    else if c == 44 { Some((SpecKind::Comma, pos + 1)) }
    else if c == 46 { Some((SpecKind::Dot, pos + 1)) }
    else if c == 63 { Some((SpecKind::Question, pos + 1)) }
    else if c == 43 && next_is(43) { Some((SpecKind::PlusPlus, pos + 2)) }
    else if c == 43 { Some((SpecKind::Plus, pos + 1)) }
    else if c == 45 && next_is(62) { Some((SpecKind::Arrow, pos + 2)) }
    else if c == 45 { Some((SpecKind::Minus, pos + 1)) }
    else if c == 42 { Some((SpecKind::Star, pos + 1)) }
    else if c == 47 { Some((SpecKind::Slash, pos + 1)) }
    else if c == 37 { Some((SpecKind::Percent, pos + 1)) }
    else if c == 61 && next_is(61) { Some((SpecKind::EqEq, pos + 2)) }
    else if c == 61 && next_is(62) { Some((SpecKind::FatArrow, pos + 2)) }
    else if c == 61 { Some((SpecKind::Eq, pos + 1)) }
    else if c == 33 && next_is(61) { Some((SpecKind::BangEq, pos + 2)) }
    else if c == 33 { Some((SpecKind::Bang, pos + 1)) }
    else if c == 60 && next_is(61) { Some((SpecKind::LtEq, pos + 2)) }
    else if c == 60 { Some((SpecKind::Lt, pos + 1)) }
    else if c == 62 && next_is(61) { Some((SpecKind::GtEq, pos + 2)) }
    else if c == 62 { Some((SpecKind::Gt, pos + 1)) }
    else if c == 38 && next_is(38) { Some((SpecKind::AndAnd, pos + 2)) }
    else if c == 124 && next_is(124) { Some((SpecKind::OrOr, pos + 2)) }
    else if c == 124 { Some((SpecKind::Pipe, pos + 1)) }
    else { None }
}

/// A number literal at `pos`: an integer, or a float when the digits are
/// followed by a dot and another digit. An integer above `i64::MAX` is refused.
pub open spec fn number_spec(b: Seq<u8>, pos: int) -> Result<(SpecKind, int), SpecLexError> {
    let e = run_end(b, pos, false);
    if e + 1 < b.len() && b[e] == 46 && is_digit(b[e + 1]) {
        let e2 = run_end(b, e + 1, false);
        Ok((SpecKind::Float(byte_chars(b.subrange(pos, e2))), e2))
    } else if digits_value(b.subrange(pos, e)) <= i64::MAX {
        Ok((SpecKind::Int(digits_value(b.subrange(pos, e)) as i64), e))
    } else {
        Err(lex_error("E_PARSE_003"@, "invalid integer literal"@, pos, e))
    }
}

/// The character an escape sequence stands for.
pub open spec fn escape_char(c: u8) -> Option<char> {
    if c == 34 { Some('"') }
    else if c == 92 { Some('\\') }
    else if c == 110 { Some('\n') }
    else if c == 114 { Some('\r') }
    else if c == 116 { Some('\t') }
    else if c == 123 { Some('{') }
    else if c == 125 { Some('}') }
    else { None }
}

/// The parts with pending text appended, when there is any.
pub open spec fn flush(parts: Seq<SpecPart>, text: Seq<char>) -> Seq<SpecPart> {
    if text.len() == 0 {
        parts
    } else {
        parts.push(SpecPart::Text(text))
    }
}

/// The index of the first `"` at or after `i`, or the end of the input.
pub open spec fn quote_from(b: Seq<u8>, i: int) -> int
    decreases b.len() - i,
{
    if i < 0 || i >= b.len() {
        b.len() as int
    } else if b[i] == 34 {
        i
    } else {
        quote_from(b, i + 1)
    }
}

/// The position of the `}` that closes an interpolation, scanning from
/// `pos` at brace depth `depth`; braces inside nested string literals do
/// not count.
pub open spec fn interp_close(b: Seq<u8>, pos: int, depth: nat, in_string: bool, escaped: bool) -> Option<int>
    decreases b.len() - pos,
{
    if pos < 0 || pos >= b.len() {
        None
    } else {
        let c = b[pos];
        if in_string {
            if escaped {
                interp_close(b, pos + 1, depth, true, false)
            } else if c == 92 {
                interp_close(b, pos + 1, depth, true, true)
            } else if c == 34 {
                interp_close(b, pos + 1, depth, false, false)
            } else {
                interp_close(b, pos + 1, depth, true, false)
            }
        } else if c == 34 {
            interp_close(b, pos + 1, depth, true, false)
        } else if c == 123 {
            interp_close(b, pos + 1, depth + 1, false, false)
        } else if c == 125 {
            if depth <= 1 {
                Some(pos)
            } else {
                interp_close(b, pos + 1, (depth - 1) as nat, false, false)
            }
        } else {
            interp_close(b, pos + 1, depth, false, false)
        }
    }
}

pub proof fn lemma_interp_close(b: Seq<u8>, pos: int, depth: nat, in_string: bool, escaped: bool)
    ensures
        interp_close(b, pos, depth, in_string, escaped) matches Some(c) ==> pos <= c < b.len() && b[c] == 125,
    decreases b.len() - pos,
{
    if 0 <= pos < b.len() {
        lemma_interp_close(b, pos + 1, depth, true, false);
        lemma_interp_close(b, pos + 1, depth, true, true);
        lemma_interp_close(b, pos + 1, depth, false, false);
        lemma_interp_close(b, pos + 1, depth + 1, false, false);
        if depth > 1 {
            lemma_interp_close(b, pos + 1, (depth - 1) as nat, false, false);
        }
    }
}

/// Unicode white space, as trimmed from interpolated expressions.
pub open spec fn is_white_space(c: char) -> bool {
    let u = c as u32;
    (9 <= u <= 13) || u == 32 || u == 0x85 || u == 0xA0 || u == 0x1680 || (0x2000 <= u <= 0x200A)
        || u == 0x2028 || u == 0x2029 || u == 0x202F || u == 0x205F || u == 0x3000
}

pub open spec fn leading_ws(s: Seq<char>) -> nat
    decreases s.len(),
{
    if s.len() > 0 && is_white_space(s[0]) {
        1 + leading_ws(s.drop_first())
    } else {
        0
    }
}

pub open spec fn trailing_ws(s: Seq<char>) -> nat
    decreases s.len(),
{
    if s.len() > 0 && is_white_space(s.last()) {
        1 + trailing_ws(s.drop_last())
    } else {
        0
    }
}

/// The text without leading and trailing white space.
pub open spec fn trim_spec(s: Seq<char>) -> Seq<char> {
    let rest = s.skip(leading_ws(s) as int);
    rest.take(rest.len() - trailing_ws(rest))
}

/// The rest of a string literal from `pos`, with pending `text` and the
/// `parts` found so far; `start` is where the literal began. The result is
/// the parts and the position just past the closing quote.
pub open spec fn string_spec(b: Seq<u8>, start: int, pos: int, text: Seq<char>, parts: Seq<SpecPart>) -> Result<(Seq<SpecPart>, int), SpecLexError>
    decreases b.len() - pos,
{
    if pos < 0 || pos >= b.len() {
        Err(lex_error("E_PARSE_009"@, "unterminated string literal"@, start, pos))
    } else {
        let c = b[pos];
        if c == 34 {
            Ok((flush(parts, text), pos + 1))
        } else if c == 92 {
            if pos + 1 >= b.len() {
                Err(lex_error("E_PARSE_004"@, "unterminated string escape"@, start, pos + 1))
            } else {
                match escape_char(b[pos + 1]) {
                    Some(d) => string_spec(b, start, pos + 2, text.push(d), parts),
                    None => Err(lex_error("E_PARSE_005"@, "unknown string escape `\\"@ + seq![b[pos + 1] as char] + "`"@, pos, pos + 2)),
                }
            }
        } else if c == 123 {
            match interp_close(b, pos + 1, 1, false, false) {
                Some(close) => {
                    let expr = trim_spec(decode_utf8(b.subrange(pos + 1, close)));
                    if expr.len() == 0 {
                        Err(lex_error("E_PARSE_006"@, "empty interpolation"@, pos, close + 1))
                    } else {
                        proof {
                            lemma_interp_close(b, pos + 1, 1, false, false);
                        }
                        string_spec(b, start, close + 1, Seq::empty(), flush(parts, text).push(SpecPart::Expr(expr)))
                    }
                },
                None => Err(lex_error("E_PARSE_007"@, "unterminated interpolation"@, pos, quote_from(b, pos + 1))),
            }
        } else if c == 10 || c == 13 {
            Err(lex_error("E_PARSE_008"@, "unterminated string literal"@, start, pos))
        } else {
            string_spec(b, start, pos + 1, text.push(c as char), parts)
        }
    }
}

pub proof fn lemma_string_advances(b: Seq<u8>, start: int, pos: int, text: Seq<char>, parts: Seq<SpecPart>)
    ensures
        string_spec(b, start, pos, text, parts) matches Ok((_, e)) ==> pos < e <= b.len(),
    decreases b.len() - pos,
{
    if 0 <= pos < b.len() {
        let c = b[pos];
        if c == 92 && pos + 1 < b.len() {
            if let Some(d) = escape_char(b[pos + 1]) {
                lemma_string_advances(b, start, pos + 2, text.push(d), parts);
            }
        } else if c == 123 {
            lemma_interp_close(b, pos + 1, 1, false, false);
            if let Some(close) = interp_close(b, pos + 1, 1, false, false) {
                let expr = trim_spec(decode_utf8(b.subrange(pos + 1, close)));
                lemma_string_advances(b, start, close + 1, Seq::empty(), flush(parts, text).push(SpecPart::Expr(expr)));
            }
        } else if c != 34 && c != 10 && c != 13 && c != 92 {
            lemma_string_advances(b, start, pos + 1, text.push(c as char), parts);
        }
    }
}

pub proof fn lemma_run_end(b: Seq<u8>, pos: int, ident: bool)
    ensures
        run_end(b, pos, ident) >= pos,
        0 <= pos <= b.len() ==> run_end(b, pos, ident) <= b.len(),
        forall|k: int| pos <= k < run_end(b, pos, ident) ==> (if ident { is_ident_rest_spec(b[k]) } else { is_digit(b[k]) }),
        0 <= pos <= b.len() && run_end(b, pos, ident) < b.len() ==> !(if ident { is_ident_rest_spec(b[run_end(b, pos, ident)]) } else { is_digit(b[run_end(b, pos, ident)]) }),
    decreases b.len() - pos,
{
    if 0 <= pos < b.len() && (if ident { is_ident_rest_spec(b[pos]) } else { is_digit(b[pos]) }) {
        lemma_run_end(b, pos + 1, ident);
    }
}

/// One token at `p`, which is neither whitespace nor a comment, with the
/// position just past it.
pub open spec fn token_spec(b: Seq<u8>, p: int) -> Result<(SpecKind, int), SpecLexError> {
    match sym_spec(b, p) {
        Some(x) => Ok(x),
        None => {
            let c = b[p];
            if c == 34 {
                match string_spec(b, p, p + 1, Seq::empty(), Seq::empty()) {
                    Ok((parts, e)) => Ok((SpecKind::Str(parts), e)),
                    Err(x) => Err(x),
                }
            } else if is_digit(c) {
                number_spec(b, p)
            } else if is_ident_start_spec(c) || is_upper_start_spec(c) {
                let e = run_end(b, p + 1, true);
                Ok((SpecKind::Ident(byte_chars(b.subrange(p, e))), e))
            } else {
                Err(lex_error("E_PARSE_001"@, "unexpected character `"@ + seq![b[p] as char] + "`"@, p, p + 1))
            }
        },
    }
}

pub proof fn lemma_token_advances(b: Seq<u8>, p: int)
    requires
        0 <= p < b.len(),
    ensures
        token_spec(b, p) matches Ok((_, e)) ==> p < e <= b.len(),
{
    lemma_string_advances(b, p, p + 1, Seq::empty(), Seq::empty());
    lemma_run_end(b, p, false);
    lemma_run_end(b, p + 1, true);
    let e = run_end(b, p, false);
    if e + 1 < b.len() {
        lemma_run_end(b, e + 1, false);
    }
}

pub proof fn lemma_skip(b: Seq<u8>, pos: int)
    requires
        0 <= pos <= b.len(),
    ensures
        pos <= skip_spec(b, pos) <= b.len(),
    decreases b.len() - pos,
{
    if pos < b.len() && is_ws_byte(b[pos]) {
        lemma_skip(b, pos + 1);
    } else if pos < b.len() && b[pos] == 35 {
        lemma_comment_end(b, pos + 1);
        lemma_skip(b, comment_end(b, pos + 1));
    }
}

/// The tokens of the input from `pos` on, ending with `Eof`, or the first
/// lexical error.
pub open spec fn lex_from(b: Seq<u8>, pos: int) -> Result<Seq<SpecToken>, SpecLexError>
    decreases b.len() - pos,
{
    if pos < 0 || pos > b.len() {
        Err(lex_error(Seq::empty(), Seq::empty(), pos, pos))
    } else {
        let p = skip_spec(b, pos);
        proof {
            lemma_skip(b, pos);
        }
        if p >= b.len() {
            Ok(seq![SpecToken { kind: SpecKind::Eof, start: p, end: p }])
        } else {
            match token_spec(b, p) {
                Ok((k, e)) => {
                    proof {
                        lemma_token_advances(b, p);
                    }
                    match lex_from(b, e) {
                        Ok(rest) => Ok(seq![SpecToken { kind: k, start: p, end: e }] + rest),
                        Err(x) => Err(x),
                    }
                },
                Err(x) => Err(x),
            }
        }
    }
}


/// The text of `s` without leading and trailing white space.
pub fn trim_text(s: &str) -> (r: String)
    ensures
        r@ == trim_spec(s@),
{
    let chars = crate::text::chars_of(s);
    let ghost cs = chars@;
    let mut a: usize = 0;
    assert(cs.skip(0) =~= cs);
    while a < chars.len() && is_white_space_char(chars[a])
        invariant
            a <= cs.len(),
            cs == chars@,
            leading_ws(cs) == a + leading_ws(cs.skip(a as int)),
        decreases chars.len() - a,
    {
        assert(cs.skip(a as int).drop_first() =~= cs.skip(a + 1));
        a = a + 1;
    }
    assert(leading_ws(cs.skip(a as int)) == 0);
    let ghost rest = cs.skip(a as int);
    let mut z: usize = chars.len();
    assert(rest.take(z - a) =~= rest);
    while z > a && is_white_space_char(chars[z - 1])
        invariant
            a <= z <= cs.len(),
            cs == chars@,
            rest == cs.skip(a as int),
            trailing_ws(rest) == (cs.len() - z) + trailing_ws(rest.take(z - a)),
        decreases z,
    {
        assert(rest.take(z - a).drop_last() =~= rest.take(z - 1 - a));
        z = z - 1;
    }
    assert(trailing_ws(rest.take(z - a)) == 0);
    let mut out = String::new();
    let mut k: usize = a;
    while k < z
        invariant
            a <= k <= z <= cs.len(),
            cs == chars@,
            out@ == cs.subrange(a as int, k as int),
        decreases z - k,
    {
        push_char(&mut out, chars[k]);
        assert(cs.subrange(a as int, k + 1) =~= cs.subrange(a as int, k as int).push(cs[k as int]));
        k = k + 1;
    }
    assert(cs.subrange(a as int, z as int) =~= rest.take(rest.len() - trailing_ws(rest)));
    out
}

/// Whether a character is Unicode white space.
fn is_white_space_char(c: char) -> (b: bool)
    ensures
        b == is_white_space(c),
{
    let u = c as u32;
    (9 <= u && u <= 13) || u == 32 || u == 0x85 || u == 0xA0 || u == 0x1680 || (0x2000 <= u && u <= 0x200A)
        || u == 0x2028 || u == 0x2029 || u == 0x202F || u == 0x205F || u == 0x3000
}

fn is_ident_start(ch: u8) -> (b: bool)
    ensures
        b == is_ident_start_spec(ch),
{
    (97 <= ch && ch <= 122) || ch == 95
}

fn is_upper_start(ch: u8) -> (b: bool)
    ensures
        b == is_upper_start_spec(ch),
{
    65 <= ch && ch <= 90
}

fn is_ident_rest(ch: u8) -> (b: bool)
    ensures
        b == is_ident_rest_spec(ch),
{
    is_ident_start(ch) || is_upper_start(ch) || (48 <= ch && ch <= 57) || ch == 45
}

/// A string holding one character.
fn char_string(c: char) -> (s: String)
    ensures
        s@ == seq![c],
{
    let mut s = String::new();
    push_char(&mut s, c);
    s
}

/// Turns source text into tokens.
pub struct Lexer<'a> {
    file_id: usize,
    input: &'a str,
    bytes: &'a [u8],
    pos: usize,
}

impl<'a> Lexer<'a> {
    /// The input bytes.
    pub closed spec fn bytes_spec(&self) -> Seq<u8> {
        self.bytes@
    }

    /// The position reached.
    pub closed spec fn pos_spec(&self) -> int {
        self.pos as int
    }

    pub closed spec fn file_spec(&self) -> usize {
        self.file_id
    }

    pub closed spec fn wf(&self) -> bool {
        &&& self.bytes@ == self.input.spec_bytes()
        &&& self.pos <= self.bytes@.len()
    }

    /// A lexer at the start of `input`.
    pub fn new(file_id: usize, input: &'a str) -> (l: Self)
        ensures
            l.wf(),
            l.bytes_spec() == input.spec_bytes(),
            l.pos_spec() == 0,
            l.file_spec() == file_id,
    {
        Lexer { file_id, input, bytes: input.as_bytes(), pos: 0 }
    }

    fn peek(&self) -> (r: Option<u8>)
        requires
            self.wf(),
        ensures
            r == if self.pos < self.bytes@.len() { Some(self.bytes@[self.pos as int]) } else { None::<u8> },
    {
        if self.pos < self.bytes.len() {
            Some(self.bytes[self.pos])
        } else {
            None
        }
    }

    fn next_is(&self, expected: u8) -> (r: bool)
        requires
            self.wf(),
        ensures
            r == (self.pos + 1 < self.bytes@.len() && self.bytes@[self.pos + 1] == expected),
    {
        self.pos < self.bytes.len() && self.pos + 1 < self.bytes.len() && self.bytes[self.pos + 1] == expected
    }

    fn diag(&self, code: &'static str, message: &str, start: usize, end: usize) -> (d: Diagnostic)
        ensures
            d.code == code,
            d.message@ == message@,
            d.span.file.0 == self.file_id,
            d.span.start == start,
            d.span.end == end,
    {
        Diagnostic { code, message: message.to_owned(), span: Span::new(self.file_id, start, end) }
    }

    /// Skips whitespace and `#` comments.
    fn skip_ws_and_comments(&mut self)
        requires
            old(self).wf(),
        ensures
            final(self).wf(),
            final(self).pos == skip_spec(old(self).bytes@, old(self).pos as int),
            final(self).bytes == old(self).bytes,
            final(self).input == old(self).input,
            final(self).file_id == old(self).file_id,
    {
        let ghost b = self.bytes@;
        loop
            invariant
                self.wf(),
                self.bytes@ == b,
                self.bytes == old(self).bytes,
                self.input == old(self).input,
                self.file_id == old(self).file_id,
                skip_spec(b, old(self).pos as int) == skip_spec(b, self.pos as int),
            ensures
                self.pos as int == skip_spec(b, self.pos as int),
            decreases b.len() - self.pos,
        {
            let ghost iter_start = self.pos;
            while self.pos < self.bytes.len() && (self.bytes[self.pos] == 32 || self.bytes[self.pos] == 9
                || self.bytes[self.pos] == 10 || self.bytes[self.pos] == 13)
                invariant
                    self.wf(),
                    self.bytes@ == b,
                    self.bytes == old(self).bytes,
                    self.input == old(self).input,
                    self.file_id == old(self).file_id,
                    skip_spec(b, old(self).pos as int) == skip_spec(b, self.pos as int),
                    iter_start <= self.pos,
                decreases b.len() - self.pos,
            {
                self.pos = self.pos + 1;
            }
            if self.pos < self.bytes.len() && self.bytes[self.pos] == 35 {
                let ghost at = self.pos as int;
                self.pos = self.pos + 1;
                while self.pos < self.bytes.len() && self.bytes[self.pos] != 10
                    invariant
                        self.wf(),
                        self.bytes@ == b,
                        self.bytes == old(self).bytes,
                        self.input == old(self).input,
                        self.file_id == old(self).file_id,
                        at < self.pos,
                        comment_end(b, at + 1) == comment_end(b, self.pos as int),
                    decreases b.len() - self.pos,
                {
                    self.pos = self.pos + 1;
                }
                if self.pos < self.bytes.len() {
                    self.pos = self.pos + 1;
                }
                assert(self.pos as int == comment_end(b, at + 1));
                assert(skip_spec(b, at) == skip_spec(b, self.pos as int));
                continue;
            }
            break;
        }
    }

    /// A number literal starting at a digit.
    fn lex_number(&mut self) -> (r: Result<TokenKind, Diagnostic>)
        requires
            old(self).wf(),
            old(self).pos < old(self).bytes@.len(),
            is_digit(old(self).bytes@[old(self).pos as int]),
        ensures
            final(self).wf(),
            final(self).bytes == old(self).bytes,
            final(self).input == old(self).input,
            final(self).file_id == old(self).file_id,
            match r {
                Ok(k) => number_spec(old(self).bytes@, old(self).pos as int) == Ok::<(SpecKind, int), SpecLexError>((kind_view(k), final(self).pos as int)),
                Err(d) => number_spec(old(self).bytes@, old(self).pos as int) == Err::<(SpecKind, int), SpecLexError>(diag_view(d)) && d.span.file.0 == old(self).file_id,
            },
    {
        let ghost b = self.bytes@;
        let start = self.pos;
        proof {
            lemma_run_end(b, start as int, false);
        }
        while self.pos < self.bytes.len() && 48 <= self.bytes[self.pos] && self.bytes[self.pos] <= 57
            invariant
                self.wf(),
                self.bytes@ == b,
                self.bytes == old(self).bytes,
                self.input == old(self).input,
                self.file_id == old(self).file_id,
                start <= self.pos <= run_end(b, start as int, false),
                run_end(b, start as int, false) == run_end(b, self.pos as int, false),
            decreases b.len() - self.pos,
        {
            proof {
                lemma_run_end(b, self.pos + 1, false);
            }
            self.pos = self.pos + 1;
        }
        let digits_end = self.pos;
        let is_float = if self.pos < self.bytes.len() && self.bytes[self.pos] == 46 && self.pos + 1 < self.bytes.len()
            && 48 <= self.bytes[self.pos + 1] && self.bytes[self.pos + 1] <= 57 {
            self.pos = self.pos + 1;
            proof {
                lemma_run_end(b, self.pos as int, false);
            }
            while self.pos < self.bytes.len() && 48 <= self.bytes[self.pos] && self.bytes[self.pos] <= 57
                invariant
                    self.wf(),
                    self.bytes@ == b,
                    self.bytes == old(self).bytes,
                    self.input == old(self).input,
                    self.file_id == old(self).file_id,
                    digits_end + 1 <= self.pos <= run_end(b, digits_end + 1, false),
                    run_end(b, digits_end + 1, false) == run_end(b, self.pos as int, false),
                decreases b.len() - self.pos,
            {
                proof {
                    lemma_run_end(b, self.pos + 1, false);
                }
                self.pos = self.pos + 1;
            }
            true
        } else {
            false
        };
        if is_float {
            let mut text = String::new();
            let mut k: usize = start;
            while k < self.pos
                invariant
                    start <= k <= self.pos <= b.len(),
                    self.bytes@ == b,
                    text@ == byte_chars(b.subrange(start as int, k as int)),
                decreases self.pos - k,
            {
                push_char(&mut text, self.bytes[k] as char);
                assert(byte_chars(b.subrange(start as int, k + 1)) =~= byte_chars(b.subrange(start as int, k as int)).push(b[k as int] as char));
                k = k + 1;
            }
            return Ok(TokenKind::Float(text));
        }
        let mut value: u64 = 0;
        let mut k: usize = start;
        while k < digits_end
            invariant
                start <= k <= digits_end <= b.len(),
                self.bytes@ == b,
                forall|q: int| start <= q < digits_end ==> is_digit(#[trigger] b[q]),
                value == digits_value(b.subrange(start as int, k as int)),
                value <= i64::MAX,
                digits_end == run_end(b, start as int, false),
                start == old(self).pos,
                b == old(self).bytes@,
                !(digits_end + 1 < b.len() && b[digits_end as int] == 46 && is_digit(b[digits_end + 1])),
                self.pos == digits_end,
                self.wf(),
                self.bytes == old(self).bytes,
                self.input == old(self).input,
                self.file_id == old(self).file_id,
            decreases digits_end - k,
        {
            let d = (self.bytes[k] - 48) as u64;
            assert(b.subrange(start as int, k + 1).drop_last() =~= b.subrange(start as int, k as int));
            if value > 922337203685477580 || (value == 922337203685477580 && d > 7) {
                assert(digits_value(b.subrange(start as int, k + 1)) == value * 10 + d);
                proof {
                    lemma_digits_monotone(b.subrange(start as int, digits_end as int), (k + 1 - start) as int);
                    assert(b.subrange(start as int, digits_end as int).take((k + 1 - start) as int) =~= b.subrange(start as int, k + 1));
                }
                return Err(self.diag("E_PARSE_003", "invalid integer literal", start, digits_end));
            }
            value = value * 10 + d;
            k = k + 1;
        }
        Ok(TokenKind::Int(value as i64))
    }

    /// An identifier starting at a letter or underscore.
    fn lex_ident(&mut self) -> (k: TokenKind)
        requires
            old(self).wf(),
            old(self).pos < old(self).bytes@.len(),
        ensures
            final(self).wf(),
            final(self).bytes == old(self).bytes,
            final(self).input == old(self).input,
            final(self).file_id == old(self).file_id,
            final(self).pos == run_end(old(self).bytes@, old(self).pos + 1, true),
            kind_view(k) == SpecKind::Ident(byte_chars(old(self).bytes@.subrange(old(self).pos as int, final(self).pos as int))),
    {
        let ghost b = self.bytes@;
        let start = self.pos;
        let n = self.bytes.len();
        assert(start < n);
        self.pos = self.pos + 1;
        proof {
            lemma_run_end(b, self.pos as int, true);
        }
        while self.pos < self.bytes.len() && is_ident_rest(self.bytes[self.pos])
            invariant
                self.wf(),
                self.bytes@ == b,
                self.bytes == old(self).bytes,
                self.input == old(self).input,
                self.file_id == old(self).file_id,
                start + 1 <= self.pos <= run_end(b, start + 1, true),
                run_end(b, start + 1, true) == run_end(b, self.pos as int, true),
            decreases b.len() - self.pos,
        {
            proof {
                lemma_run_end(b, self.pos + 1, true);
            }
            self.pos = self.pos + 1;
        }
        let mut text = String::new();
        let mut k: usize = start;
        while k < self.pos
            invariant
                start <= k <= self.pos <= b.len(),
                self.bytes@ == b,
                text@ == byte_chars(b.subrange(start as int, k as int)),
            decreases self.pos - k,
        {
            push_char(&mut text, self.bytes[k] as char);
            assert(byte_chars(b.subrange(start as int, k + 1)) =~= byte_chars(b.subrange(start as int, k as int)).push(b[k as int] as char));
            k = k + 1;
        }
        TokenKind::Ident(text)
    }
}

/// Digit values only grow as digits are appended.
proof fn lemma_digits_monotone(d: Seq<u8>, k: int)
    requires
        0 <= k <= d.len(),
    ensures
        digits_value(d.take(k)) <= digits_value(d),
    decreases d.len() - k,
{
    if k < d.len() {
        lemma_digits_monotone(d, k + 1);
        assert(d.take(k + 1).drop_last() =~= d.take(k));
        assert(digits_value(d.take(k + 1)) >= digits_value(d.take(k)));
    } else {
        assert(d.take(k) =~= d);
    }
}


/// The text strictly between an opening brace at `start - 1` and a closing
/// brace at `close`.
fn interpolation_text(input: &str, start: usize, close: usize) -> (r: &str)
    requires
        1 <= start <= close < input.spec_bytes().len(),
        input.spec_bytes()[start - 1] == 123,
        input.spec_bytes()[close as int] == 125,
    ensures
        r@ == decode_utf8(input.spec_bytes().subrange(start as int, close as int)),
{
    broadcast use vstd::utf8::group_utf8_lib;
    let ghost b = input.spec_bytes();
    proof {
        vstd::utf8::is_char_boundary_iff_not_is_continuation_byte(b, start - 1);
    }
    let (_, from_brace) = input.split_at(start - 1);
    let ghost fb = from_brace.spec_bytes();
    assert(fb[close - (start - 1)] == b[close as int]);
    proof {
        vstd::utf8::is_char_boundary_iff_not_is_continuation_byte(fb, close - (start - 1));
    }
    let (braced, _) = from_brace.split_at(close - (start - 1));
    let ghost bb = braced.spec_bytes();
    assert(bb[0] == 123);
    assert(vstd::utf8::length_of_first_scalar(bb) == 1);
    assert(is_char_boundary(vstd::utf8::pop_first_scalar(bb), 0));
    assert(is_char_boundary(bb, 1));
    let (_, inner) = braced.split_at(1);
    assert(inner.spec_bytes() =~= b.subrange(start as int, close as int));
    inner
}

impl<'a> Lexer<'a> {
    /// Scans an interpolation whose text starts at the current position, up
    /// to the brace that closes it; the result is that brace's position.
    fn scan_interpolation(&mut self) -> (r: Option<usize>)
        requires
            old(self).wf(),
            old(self).pos >= 1,
        ensures
            final(self).wf(),
            final(self).bytes == old(self).bytes,
            final(self).input == old(self).input,
            final(self).file_id == old(self).file_id,
            match r {
                Some(c) => interp_close(old(self).bytes@, old(self).pos as int, 1, false, false) == Some(c as int)
                    && final(self).pos == c + 1,
                None => interp_close(old(self).bytes@, old(self).pos as int, 1, false, false) is None
                    && final(self).pos == old(self).bytes@.len(),
            },
    {
        let ghost b = self.bytes@;
        let ghost s0 = self.pos as int;
        let mut depth: usize = 1;
        let mut in_string = false;
        let mut escaped = false;
        while self.pos < self.bytes.len()
            invariant
                self.wf(),
                self.bytes@ == b,
                b == old(self).bytes@,
                self.bytes == old(self).bytes,
                self.input == old(self).input,
                self.file_id == old(self).file_id,
                s0 == old(self).pos,
                s0 <= self.pos <= b.len(),
                s0 >= 1,
                1 <= depth <= self.pos - s0 + 1,
                !in_string ==> !escaped,
                interp_close(b, s0, 1, false, false) == interp_close(b, self.pos as int, depth as nat, in_string, escaped),
            decreases b.len() - self.pos,
        {
            let inner = self.bytes[self.pos];
            self.pos = self.pos + 1;
            if in_string {
                if escaped {
                    escaped = false;
                } else if inner == 92 {
                    escaped = true;
                } else if inner == 34 {
                    in_string = false;
                }
                continue;
            }
            if inner == 34 {
                in_string = true;
            } else if inner == 123 {
                depth = depth + 1;
            } else if inner == 125 {
                depth = depth - 1;
                if depth == 0 {
                    return Some(self.pos - 1);
                }
            }
        }
        None
    }

    /// A string literal starting at its opening quote.
    fn lex_string(&mut self) -> (r: Result<TokenKind, Diagnostic>)
        requires
            old(self).wf(),
            old(self).pos < old(self).bytes@.len(),
            old(self).bytes@[old(self).pos as int] == 34,
        ensures
            final(self).wf(),
            final(self).bytes == old(self).bytes,
            final(self).input == old(self).input,
            final(self).file_id == old(self).file_id,
            match r {
                Ok(k) => string_spec(old(self).bytes@, old(self).pos as int, old(self).pos + 1, Seq::empty(), Seq::empty()) matches Ok((parts, e))
                    && kind_view(k) == SpecKind::Str(parts) && final(self).pos == e,
                Err(d) => string_spec(old(self).bytes@, old(self).pos as int, old(self).pos + 1, Seq::empty(), Seq::empty())
                    == Err::<(Seq<SpecPart>, int), SpecLexError>(diag_view(d)) && d.span.file.0 == old(self).file_id,
            },
    {
        let ghost b = self.bytes@;
        let start = self.pos;
        let n = self.bytes.len();
        assert(start < n);
        self.pos = self.pos + 1;
        let mut text = String::new();
        let mut parts: Vec<StringPart> = Vec::new();
        proof {
            assert(parts_view(parts@) =~= Seq::<SpecPart>::empty());
        }
        loop
            invariant
                self.wf(),
                self.bytes@ == b,
                b == old(self).bytes@,
                self.bytes == old(self).bytes,
                self.input == old(self).input,
                self.file_id == old(self).file_id,
                start == old(self).pos,
                start < self.pos <= b.len(),
                string_spec(b, start as int, start + 1, Seq::empty(), Seq::empty())
                    == string_spec(b, start as int, self.pos as int, text@, parts_view(parts@)),
            decreases b.len() - self.pos,
        {
            if self.pos >= self.bytes.len() {
                return Err(self.diag("E_PARSE_009", "unterminated string literal", start, self.pos));
            }
            let ch = self.bytes[self.pos];
            if ch == 34 {
                self.pos = self.pos + 1;
                if !text.as_str().is_empty() {
                    let ghost before = parts@;
                    parts.push(StringPart::Text(text));
                    assert(parts_view(parts@) =~= parts_view(before).push(SpecPart::Text(text@)));
                }
                return Ok(TokenKind::Str(parts));
            } else if ch == 92 {
                self.pos = self.pos + 1;
                if self.pos >= self.bytes.len() {
                    return Err(self.diag("E_PARSE_004", "unterminated string escape", start, self.pos));
                }
                let escaped = self.bytes[self.pos];
                self.pos = self.pos + 1;
                let decoded = match escape_byte(escaped) {
                    Some(c) => c,
                    None => {
                        let shown = char_string(escaped as char);
                        let message = crate::text::concat3("unknown string escape `\\", shown.as_str(), "`");
                        return Err(self.diag("E_PARSE_005", message.as_str(), self.pos - 2, self.pos));
                    },
                };
                push_char(&mut text, decoded);
            } else if ch == 123 {
                let ghost brace = self.pos as int;
                let ghost before = parts_view(parts@);
                let ghost pending = text@;
                if !text.as_str().is_empty() {
                    let ghost old_parts = parts@;
                    parts.push(StringPart::Text(text));
                    assert(parts_view(parts@) =~= parts_view(old_parts).push(SpecPart::Text(pending)));
                    text = String::new();
                }
                assert(parts_view(parts@) == flush(before, pending));
                self.pos = self.pos + 1;
                let expr_start = self.pos;
                match self.scan_interpolation() {
                    Some(close) => {
                        proof {
                            lemma_interp_close(b, expr_start as int, 1, false, false);
                        }
                        let inner = interpolation_text(self.input, expr_start, close);
                        let expr_text = trim_text(inner);
                        if expr_text.as_str().is_empty() {
                            return Err(self.diag("E_PARSE_006", "empty interpolation", expr_start - 1, self.pos));
                        }
                        let ghost old_parts = parts@;
                        parts.push(StringPart::Expr(expr_text));
                        assert(parts_view(parts@) =~= parts_view(old_parts).push(SpecPart::Expr(expr_text@)));
                        assert(text@ =~= Seq::<char>::empty());
                    },
                    None => {
                        let mut end = expr_start;
                        while end < self.bytes.len() && self.bytes[end] != 34
                            invariant
                                self.wf(),
                                self.bytes@ == b,
                                expr_start <= end <= b.len(),
                                quote_from(b, expr_start as int) == quote_from(b, end as int),
                            decreases b.len() - end,
                        {
                            end = end + 1;
                        }
                        return Err(self.diag("E_PARSE_007", "unterminated interpolation", expr_start - 1, end));
                    },
                }
            } else if ch == 10 || ch == 13 {
                return Err(self.diag("E_PARSE_008", "unterminated string literal", start, self.pos));
            } else {
                push_char(&mut text, ch as char);
                self.pos = self.pos + 1;
            }
        }
    }

    /// The token at the current position, which is neither whitespace nor
    /// a comment.
    fn next_token(&mut self) -> (r: Result<TokenKind, Diagnostic>)
        requires
            old(self).wf(),
            old(self).pos < old(self).bytes@.len(),
        ensures
            final(self).wf(),
            final(self).bytes == old(self).bytes,
            final(self).input == old(self).input,
            final(self).file_id == old(self).file_id,
            match r {
                Ok(k) => token_spec(old(self).bytes@, old(self).pos as int) == Ok::<(SpecKind, int), SpecLexError>((kind_view(k), final(self).pos as int)),
                Err(d) => token_spec(old(self).bytes@, old(self).pos as int) == Err::<(SpecKind, int), SpecLexError>(diag_view(d)) && d.span.file.0 == old(self).file_id,
            },
    {
        let start = self.pos;
        let ch = self.bytes[self.pos];
        let (kind, width): (TokenKind, usize) = if ch == 40 {
            (TokenKind::LParen, 1)
        } else if ch == 41 {
            (TokenKind::RParen, 1)
        } else if ch == 123 {
            (TokenKind::LBrace, 1)
        } else if ch == 125 {
            (TokenKind::RBrace, 1)
        } else if ch == 91 {
            (TokenKind::LBracket, 1)
        } else if ch == 93 {
            (TokenKind::RBracket, 1)
        } else if ch == 58 {
            (TokenKind::Colon, 1)
        } else if ch == 59 {
            (TokenKind::Semi, 1)
        } else if ch == 44 {
            (TokenKind::Comma, 1)
        } else if ch == 46 {
            (TokenKind::Dot, 1)
        } else if ch == 63 {
            (TokenKind::Question, 1)
        } else if ch == 43 && self.next_is(43) {
            (TokenKind::PlusPlus, 2)
        } else if ch == 43 {
            (TokenKind::Plus, 1)
        } else if ch == 45 && self.next_is(62) {
            (TokenKind::Arrow, 2)
        } else if ch == 45 {
            (TokenKind::Minus, 1)
        } else if ch == 42 {
            (TokenKind::Star, 1)
        } else if ch == 47 {
            (TokenKind::Slash, 1)
        } else if ch == 37 {
            (TokenKind::Percent, 1)
        } else if ch == 61 && self.next_is(61) {
            (TokenKind::EqEq, 2)
        } else if ch == 61 && self.next_is(62) {
            (TokenKind::FatArrow, 2)
        } else if ch == 61 {
            (TokenKind::Eq, 1)
        } else if ch == 33 && self.next_is(61) {
            (TokenKind::BangEq, 2)
        } else if ch == 33 {
            (TokenKind::Bang, 1)
        } else if ch == 60 && self.next_is(61) {
            (TokenKind::LtEq, 2)
        } else if ch == 60 {
            (TokenKind::Lt, 1)
        } else if ch == 62 && self.next_is(61) {
            (TokenKind::GtEq, 2)
        } else if ch == 62 {
            (TokenKind::Gt, 1)
        } else if ch == 38 && self.next_is(38) {
            (TokenKind::AndAnd, 2)
        } else if ch == 124 && self.next_is(124) {
            (TokenKind::OrOr, 2)
        } else if ch == 124 {
            (TokenKind::Pipe, 1)
        } else if ch == 34 {
            return self.lex_string();
        } else if 48 <= ch && ch <= 57 {
            return self.lex_number();
        } else if is_ident_start(ch) || is_upper_start(ch) {
            return Ok(self.lex_ident());
        } else {
            let shown = char_string(ch as char);
            let message = crate::text::concat3("unexpected character `", shown.as_str(), "`");
            return Err(self.diag("E_PARSE_001", message.as_str(), start, start + 1));
        };
        self.pos = self.pos + width;
        Ok(kind)
    }

    /// All tokens from the current position on, ending with `Eof`.
    pub fn tokenize(self) -> (r: Result<Vec<Token>, Diagnostic>)
        requires
            self.wf(),
        ensures
            match r {
                Ok(ts) => lex_from(self.bytes_spec(), self.pos_spec()) == Ok::<Seq<SpecToken>, SpecLexError>(tokens_view(ts@))
                    && forall|i: int| 0 <= i < ts@.len() ==> (#[trigger] ts@[i]).span.file.0 == self.file_spec(),
                Err(d) => lex_from(self.bytes_spec(), self.pos_spec()) == Err::<Seq<SpecToken>, SpecLexError>(diag_view(d))
                    && d.span.file.0 == self.file_spec(),
            },
    {
        let ghost b = self.bytes@;
        let ghost p0 = self.pos as int;
        let ghost file = self.file_id;
        let mut lexer = self;
        let mut tokens: Vec<Token> = Vec::new();
        proof {
            assert(tokens_view(tokens@) =~= Seq::<SpecToken>::empty());
            assert(Seq::<SpecToken>::empty() + Seq::<SpecToken>::empty() =~= Seq::<SpecToken>::empty());
        }
        loop
            invariant
                lexer.wf(),
                lexer.bytes@ == b,
                lexer.file_id == file,
                b == self.bytes_spec(),
                p0 == self.pos_spec(),
                file == self.file_spec(),
                forall|i: int| 0 <= i < tokens@.len() ==> (#[trigger] tokens@[i]).span.file.0 == file,
                lex_from(b, p0) == match lex_from(b, lexer.pos as int) {
                    Ok(rest) => Ok(tokens_view(tokens@) + rest),
                    Err(e) => Err::<Seq<SpecToken>, SpecLexError>(e),
                },
            decreases b.len() - lexer.pos,
        {
            let ghost before = lexer.pos as int;
            lexer.skip_ws_and_comments();
            proof {
                lemma_skip(b, before);
            }
            let start = lexer.pos;
            if start >= lexer.bytes.len() {
                let ghost prev = tokens@;
                let token = Token { kind: TokenKind::Eof, span: Span::new(lexer.file_id, start, start) };
                tokens.push(token);
                assert(tokens_view(tokens@) =~= tokens_view(prev).push(SpecToken { kind: SpecKind::Eof, start: start as int, end: start as int }));
                assert(tokens_view(prev) + seq![SpecToken { kind: SpecKind::Eof, start: start as int, end: start as int }] =~= tokens_view(tokens@));
                return Ok(tokens);
            }
            let kind = lexer.next_token()?;
            proof {
                lemma_token_advances(b, start as int);
            }
            let ghost prev = tokens@;
            let ghost tok = SpecToken { kind: kind_view(kind), start: start as int, end: lexer.pos as int };
            tokens.push(Token { kind, span: Span::new(lexer.file_id, start, lexer.pos) });
            proof {
                assert(tokens_view(tokens@) =~= tokens_view(prev).push(tok));
                match lex_from(b, lexer.pos as int) {
                    Ok(rest) => {
                        assert(tokens_view(prev) + (seq![tok] + rest) =~= tokens_view(tokens@) + rest);
                    },
                    Err(_) => {},
                }
            }
        }
    }
}

/// The character an escape byte stands for.
fn escape_byte(c: u8) -> (r: Option<char>)
    ensures
        r == escape_char(c),
{
    if c == 34 {
        Some('"')
    } else if c == 92 {
        Some('\\')
    } else if c == 110 {
        Some('\n')
    } else if c == 114 {
        Some('\r')
    } else if c == 116 {
        Some('\t')
    } else if c == 123 {
        Some('{')
    } else if c == 125 {
        Some('}')
    } else {
        None
    }
}

/// The tokens of `input`, ending with `Eof`, or the first lexical error.
pub fn tokenize(file_id: usize, input: &str) -> (r: Result<Vec<Token>, Diagnostic>)
    ensures
        match r {
            Ok(ts) => lex_from(input.spec_bytes(), 0) == Ok::<Seq<SpecToken>, SpecLexError>(tokens_view(ts@)),
            Err(d) => lex_from(input.spec_bytes(), 0) == Err::<Seq<SpecToken>, SpecLexError>(diag_view(d)),
        },
{
    Lexer::new(file_id, input).tokenize()
}

} // verus!

//! The recursive-descent parser: tokens to the surface syntax tree.
//!
//! Precedence, loosest first: `let`, ascription `e : T`, lambdas and `if`,
//! `||`, `&&`, equality, comparison, additive (`+ - ++`), multiplicative,
//! unary `! -`, application by juxtaposition, field access `e.name`.

use vstd::prelude::*;
use vstd::string::StringSliceAdditionalSpecFns;
use vstd::utf8::encode_utf8;

use crate::error::ByteRange;
use crate::source::Span;
use crate::syntax::grammar::{
    binary_op, decl_at, decls_at, distinct_names, efield_at, efields_at, efields_body, ex_at, field_name,
    atom_kind, atom_result, lemma_lit_token, lit_expr, let_decl_result, let_lit_at, let_lit_decl, let_lits_file, let_lits_tokens, lone_let_int, named_type_result, type_result, type_decl_result, lone_type_decl, field_names, lone_int, no_tokens, file_at, ident_at, lemma_atom_kind, imports_first, names_at,
    chain_file, chain_width_model, chain_stop, closes_expr, chain_width, lemma_chain_first, lemma_chain_stop_step, lemma_chain_stop_whole, lemma_group_scan, operand_then, operand_width, lemma_width_view, lemma_closes_no_op, lemma_op_level, op_level, atom_fields, atom_list, atom_record, atom_token, field_name_at, field_word, items_at, lemma_atom_fields_unique, lemma_atom_list_unique, items_body, lone_atom, simple_if, simple_import, simple_lambda,
    simple_let, simple_let_decl, simple_type_decl, trivial_file, lone_type, lemma_ex_fall, lemma_ex_lift, lemma_plain_text_none, lemma_push_distinct, lemma_ty_fall,
    lemma_ty_lift, parts_at, plain_text, str_lit_at, starts_atom, tfield_at, tfields_at, tfields_body, tg, ty_at, union_at,
    value_name,
};
use crate::syntax::lexer::{
    diag_view, lex_from, token_view, tokenize, tokens_view, SpecKind, Diagnostic, SpecLexError, SpecToken, StringPart, Token, TokenKind,
};
use crate::syntax::surface::{Decl, Expr, FileAst, StrPart, Type};
use crate::text::{concat3, str_eq};

verus! {

broadcast use vstd::std_specs::vec::group_vec_axioms;

/// The kind of a token without its payload.
#[derive(Debug, Clone, Copy, PartialEq, Eq, Structural)]
pub enum Tag {
    Ident,
    Int,
    Float,
    Str,
    LParen,
    RParen,
    LBrace,
    RBrace,
    LBracket,
    RBracket,
    Colon,
    Semi,
    Comma,
    Dot,
    Question,
    Plus,
    Minus,
    Star,
    Slash,
    Percent,
    PlusPlus,
    Eq,
    EqEq,
    Bang,
    BangEq,
    Lt,
    LtEq,
    Gt,
    GtEq,
    AndAnd,
    OrOr,
    Pipe,
    Arrow,
    FatArrow,
    Eof,
}

pub open spec fn tag_of(k: TokenKind) -> Tag {
    match k {
        TokenKind::Ident(_) => Tag::Ident,
        TokenKind::Int(_) => Tag::Int,
        TokenKind::Float(_) => Tag::Float,
        TokenKind::Str(_) => Tag::Str,
        TokenKind::LParen => Tag::LParen,
        TokenKind::RParen => Tag::RParen,
        TokenKind::LBrace => Tag::LBrace,
        TokenKind::RBrace => Tag::RBrace,
        TokenKind::LBracket => Tag::LBracket,
        TokenKind::RBracket => Tag::RBracket,
        TokenKind::Colon => Tag::Colon,
        TokenKind::Semi => Tag::Semi,
        TokenKind::Comma => Tag::Comma,
        TokenKind::Dot => Tag::Dot,
        TokenKind::Question => Tag::Question,
        TokenKind::Plus => Tag::Plus,
        TokenKind::Minus => Tag::Minus,
        TokenKind::Star => Tag::Star,
        TokenKind::Slash => Tag::Slash,
        TokenKind::Percent => Tag::Percent,
        TokenKind::PlusPlus => Tag::PlusPlus,
        TokenKind::Eq => Tag::Eq,
        TokenKind::EqEq => Tag::EqEq,
        TokenKind::Bang => Tag::Bang,
        TokenKind::BangEq => Tag::BangEq,
        TokenKind::Lt => Tag::Lt,
        TokenKind::LtEq => Tag::LtEq,
        TokenKind::Gt => Tag::Gt,
        TokenKind::GtEq => Tag::GtEq,
        TokenKind::AndAnd => Tag::AndAnd,
        TokenKind::OrOr => Tag::OrOr,
        TokenKind::Pipe => Tag::Pipe,
        TokenKind::Arrow => Tag::Arrow,
        TokenKind::FatArrow => Tag::FatArrow,
        TokenKind::Eof => Tag::Eof,
    }
}

fn tag(k: &TokenKind) -> (t: Tag)
    ensures
        t == tag_of(*k),
{
    match k {
        TokenKind::Ident(_) => Tag::Ident,
        TokenKind::Int(_) => Tag::Int,
        TokenKind::Float(_) => Tag::Float,
        TokenKind::Str(_) => Tag::Str,
        TokenKind::LParen => Tag::LParen,
        TokenKind::RParen => Tag::RParen,
        TokenKind::LBrace => Tag::LBrace,
        TokenKind::RBrace => Tag::RBrace,
        TokenKind::LBracket => Tag::LBracket,
        TokenKind::RBracket => Tag::RBracket,
        TokenKind::Colon => Tag::Colon,
        TokenKind::Semi => Tag::Semi,
        TokenKind::Comma => Tag::Comma,
        TokenKind::Dot => Tag::Dot,
        TokenKind::Question => Tag::Question,
        TokenKind::Plus => Tag::Plus,
        TokenKind::Minus => Tag::Minus,
        TokenKind::Star => Tag::Star,
        TokenKind::Slash => Tag::Slash,
        TokenKind::Percent => Tag::Percent,
        TokenKind::PlusPlus => Tag::PlusPlus,
        TokenKind::Eq => Tag::Eq,
        TokenKind::EqEq => Tag::EqEq,
        TokenKind::Bang => Tag::Bang,
        TokenKind::BangEq => Tag::BangEq,
        TokenKind::Lt => Tag::Lt,
        TokenKind::LtEq => Tag::LtEq,
        TokenKind::Gt => Tag::Gt,
        TokenKind::GtEq => Tag::GtEq,
        TokenKind::AndAnd => Tag::AndAnd,
        TokenKind::OrOr => Tag::OrOr,
        TokenKind::Pipe => Tag::Pipe,
        TokenKind::Arrow => Tag::Arrow,
        TokenKind::FatArrow => Tag::FatArrow,
        TokenKind::Eof => Tag::Eof,
    }
}

/// The words that cannot name values.
pub open spec fn reserved(name: Seq<char>) -> bool {
    name == "import"@ || name == "export"@ || name == "type"@ || name == "let"@ || name == "in"@
        || name == "if"@ || name == "then"@ || name == "else"@ || name == "true"@ || name == "false"@
        || name == "none"@ || name == "some"@
}

/// Whether a name starts with an ASCII capital letter (a type name).
pub open spec fn upper_name(name: Seq<char>) -> bool {
    name.len() > 0 && 'A' <= name[0] <= 'Z'
}

/// Whether `name` is reserved.
pub fn is_reserved(name: &str) -> (b: bool)
    ensures
        b == reserved(name@),
{
    str_eq(name, "import") || str_eq(name, "export") || str_eq(name, "type") || str_eq(name, "let")
        || str_eq(name, "in") || str_eq(name, "if") || str_eq(name, "then") || str_eq(name, "else")
        || str_eq(name, "true") || str_eq(name, "false") || str_eq(name, "none") || str_eq(name, "some")
}

/// Whether `name` starts with an ASCII capital letter.
pub fn starts_upper(name: &str) -> (b: bool)
    ensures
        b == upper_name(name@),
{
    let chars = crate::text::chars_of(name);
    chars.len() > 0 && 'A' <= chars[0] && chars[0] <= 'Z'
}

/// The span from the start of `a` to the end of `b`.
pub fn join(a: Span, b: Span) -> (s: Span)
    ensures
        s.file == a.file,
        s.start == a.start,
        s.end == b.end,
{
    Span { file: a.file, start: a.start, end: b.end }
}

fn range(s: Span) -> (r: ByteRange)
    ensures
        r.start == s.start,
        r.end == s.end,
{
    ByteRange::new(s.start, s.end)
}

/// The literal text of string parts; interpolation is refused.
pub fn literal_string(parts: &Vec<StringPart>, span: Span) -> (r: Result<String, Diagnostic>)
    ensures
        match r {
            Ok(s) => (forall|i: int| 0 <= i < parts@.len() ==> parts@[i] is Text) && plain_text(parts@) == Some(s@),
            Err(d) => d.code@ == "E_PARSE_022"@ && exists|i: int| 0 <= i < parts@.len() && parts@[i] is Expr,
        },
{
    let mut out = String::new();
    let mut i: usize = 0;
    while i < parts.len()
        invariant
            i <= parts@.len(),
            forall|j: int| 0 <= j < i ==> parts@[j] is Text,
            plain_text(parts@.take(i as int)) == Some(out@),
        decreases parts.len() - i,
    {
        assert(parts@.take(i + 1).drop_last() =~= parts@.take(i as int));
        match &parts[i] {
            StringPart::Text(text) => {
                out.append(text.as_str());
            },
            StringPart::Expr(_) => {
                return Err(Diagnostic { code: "E_PARSE_022", message: "interpolation is not allowed here".to_owned(), span });
            },
        }
        i = i + 1;
    }
    assert(parts@.take(parts@.len() as int) =~= parts@);
    Ok(out)
}

/// Scanning from token `k` with `depth` parentheses open: the scan meets
/// the `)` that closes the first `(` before the end of input, and `=>`
/// follows it.
pub open spec fn arrow_after_group(t: Seq<Token>, k: int, depth: nat) -> bool
    decreases t.len() - k,
{
    if k < 0 || k >= t.len() {
        false
    } else {
        match t[k].kind {
            TokenKind::LParen => arrow_after_group(t, k + 1, depth + 1),
            TokenKind::RParen => if depth <= 1 {
                k + 1 < t.len() && t[k + 1].kind is FatArrow
            } else {
                arrow_after_group(t, k + 1, (depth - 1) as nat)
            },
            TokenKind::Eof => false,
            _ => arrow_after_group(t, k + 1, depth),
        }
    }
}

/// Scanning from token `k` with `depth` brackets open: a `;` comes at
/// depth zero before the end of input (a closing bracket with none open
/// is passed over).
pub open spec fn semi_ahead(t: Seq<Token>, k: int, depth: nat) -> bool
    decreases t.len() - k,
{
    if k < 0 || k >= t.len() {
        false
    } else {
        match t[k].kind {
            TokenKind::LParen | TokenKind::LBrace | TokenKind::LBracket => semi_ahead(t, k + 1, depth + 1),
            TokenKind::RParen | TokenKind::RBrace | TokenKind::RBracket => semi_ahead(
                t,
                k + 1,
                if depth > 0 { (depth - 1) as nat } else { 0 },
            ),
            TokenKind::Semi => depth == 0 || semi_ahead(t, k + 1, depth),
            TokenKind::Eof => false,
            _ => semi_ahead(t, k + 1, depth),
        }
    }
}

/// A keyword that starts a declaration or a compound expression is no
/// atom.
proof fn lemma_keyword_not_atom(k: TokenKind, w: Seq<char>)
    requires
        k matches TokenKind::Ident(n) && n@ == w,
        w == "let"@ || w == "if"@ || w == "import"@ || w == "export"@ || w == "type"@,
    ensures
        !atom_token(k),
{
    reveal_strlit("let");
    reveal_strlit("if");
    reveal_strlit("import");
    reveal_strlit("export");
    reveal_strlit("type");
    reveal_strlit("true");
    reveal_strlit("false");
    reveal_strlit("none");
    assert(reserved(w));
    assert(w != "true"@ && w != "false"@ && w != "none"@) by {
        assert("true"@.len() == 4 && "true"@[1] == 'r');
        assert("none"@.len() == 4 && "none"@[0] == 'n');
        assert("false"@.len() == 5);
        if w == "type"@ {
            assert(w[1] == 'y' && w[0] == 't');
        }
    }
}

/// `let x = a;` at `p` starts with `let`, no other declaration keyword,
/// and has its `;` at bracket depth zero.
proof fn lemma_let_decl_start(t: Seq<Token>, p: int)
    requires
        simple_let_decl(t, p),
    ensures
        semi_ahead(t, p, 0),
        !ident_at(t, p, "import"@),
        !ident_at(t, p, "export"@),
        !ident_at(t, p, "type"@),
{
    reveal_strlit("let");
    reveal_strlit("import");
    reveal_strlit("export");
    reveal_strlit("type");
    assert("let"@.len() == 3 && "import"@.len() == 6 && "export"@.len() == 6 && "type"@.len() == 4);
    assert(semi_ahead(t, p + 4, 0));
    assert(semi_ahead(t, p + 3, 0));
    assert(semi_ahead(t, p + 2, 0));
    assert(semi_ahead(t, p + 1, 0));
    assert(semi_ahead(t, p, 0));
}

/// Tokens whose models make a source of literal `let`s make it as tokens.
proof fn lemma_let_lits_view(ts: Seq<Token>, n: nat, o: bool)
    requires
        let_lits_file(Ok::<Seq<SpecToken>, SpecLexError>(tokens_view(ts)), n, o),
    ensures
        let_lits_tokens(ts, n, o),
{
    let st = tokens_view(ts);
    assert(ts.len() == st.len());
    assert forall|k: int| 0 <= k < n implies #[trigger] simple_let_decl(ts, 5 * k) by {
        assert(let_lit_at(st, 5 * k));
        assert(st[5 * k] == token_view(ts[5 * k]));
        assert(st[5 * k + 1] == token_view(ts[5 * k + 1]));
        assert(st[5 * k + 2] == token_view(ts[5 * k + 2]));
        assert(st[5 * k + 3] == token_view(ts[5 * k + 3]));
        assert(st[5 * k + 4] == token_view(ts[5 * k + 4]));
        lemma_lit_token(ts[5 * k + 3].kind, Expr::OptNone);
    }
    if o {
        assert(st[5 * n as int] == token_view(ts[5 * n as int]));
        assert(st[5 * n as int + 1] == token_view(ts[5 * n as int + 1]));
        lemma_lit_token(ts[5 * n as int].kind, Expr::OptNone);
    }
}

/// A file of at most one atom starts with no keyword of a declaration.
proof fn lemma_trivial_file_start(t: Seq<Token>)
    requires
        trivial_file(t),
        t.last().kind is Eof,
    ensures
        !ident_at(t, 0, "import"@),
        !ident_at(t, 0, "export"@),
        !ident_at(t, 0, "type"@),
        !ident_at(t, 0, "let"@),
{
    if let TokenKind::Ident(n) = t[0].kind {
        if n@ == "import"@ {
            lemma_keyword_not_atom(t[0].kind, "import"@);
        }
        if n@ == "export"@ {
            lemma_keyword_not_atom(t[0].kind, "export"@);
        }
        if n@ == "type"@ {
            lemma_keyword_not_atom(t[0].kind, "type"@);
        }
        if n@ == "let"@ {
            lemma_keyword_not_atom(t[0].kind, "let"@);
        }
    }
}

/// Parses a token stream.
pub struct Parser {
    file_id: usize,
    tokens: Vec<Token>,
    pos: usize,
    nesting: usize,
}

impl Parser {
    /// The tokens end with `Eof` and the position is on a token.
    pub closed spec fn wf(&self) -> bool {
        &&& self.tokens@.len() > 0
        &&& self.pos < self.tokens@.len()
        &&& self.tokens@.last().kind is Eof
    }

    pub closed spec fn remaining(&self) -> int {
        self.tokens@.len() - self.pos
    }

    pub closed spec fn pos_spec(&self) -> int {
        self.pos as int
    }

    pub closed spec fn depth_spec(&self) -> usize {
        self.nesting
    }

    pub closed spec fn same_input(&self, other: &Parser) -> bool {
        &&& self.tokens == other.tokens
        &&& self.file_id == other.file_id
        &&& self.nesting == other.nesting
    }

    /// Parses a whole file: imports, declarations, then an optional output
    /// expression.
    pub fn parse_file(file_id: usize, input: &str) -> (r: Result<FileAst, Diagnostic>)
        ensures
            r is Ok ==> lex_from(input.spec_bytes(), 0) is Ok,
            chain_file(lex_from(input.spec_bytes(), 0)) ==> (r matches Ok(f) && f.decls@.len() == 0 && f.output is Some),
            r matches Ok(f) ==> exists|ts: Seq<Token>| #[trigger] tokens_view(ts) == lex_from(input.spec_bytes(), 0)->Ok_0
                && file_at(ts, f),
            lex_from(input.spec_bytes(), 0) matches Err(e) ==> r matches Err(d) && diag_view(d) == e,
            no_tokens(lex_from(input.spec_bytes(), 0)) ==> (r matches Ok(f) && f.decls@.len() == 0 && f.output is None),
            lone_int(lex_from(input.spec_bytes(), 0)) matches Some(v) ==> (r matches Ok(f) && f.decls@.len() == 0
                && (f.output matches Some(e) && (e matches Expr::Spanned(x, _) && *x == Expr::Int(v)))),
            lone_type_decl(lex_from(input.spec_bytes(), 0)) matches Some(nt) ==> (r matches Ok(f) && f.decls@.len() == 1
                && f.output is None && (f.decls@[0] matches Decl::Type { name, ty, .. } && name@ == nt.0 && named_type_result(nt.1, ty))),
            lone_let_int(lex_from(input.spec_bytes(), 0)) matches Some(nv) ==> (r matches Ok(f) && f.decls@.len() == 1
                && f.output is None && (f.decls@[0] matches Decl::Let { name, annotation, expr, .. } && name@ == nv.0
                && annotation is None && (expr matches Expr::Spanned(x, _) && *x == Expr::Int(nv.1)))),
            forall|n: nat, o: bool| #[trigger] let_lits_file(lex_from(input.spec_bytes(), 0), n, o) ==> (r matches Ok(f) && f.decls@.len() == n
                && (forall|k: int| 0 <= k < n ==> #[trigger] let_lit_decl(lex_from(input.spec_bytes(), 0)->Ok_0, 5 * k, f.decls@[k]))
                && (if o {
                    f.output matches Some(e) && (e matches Expr::Spanned(x, _)
                        && lit_expr(lex_from(input.spec_bytes(), 0)->Ok_0[5 * n as int].kind, *x))
                } else {
                    f.output is None
                })),
    {
        let tokens = tokenize(file_id, input)?;
        proof {
            if tokens@.len() > 0 {
                assert(tokens_view(tokens@)[0] == token_view(tokens@[0]));
                if tokens@.len() > 1 {
                    assert(tokens_view(tokens@)[1] == token_view(tokens@[1]));
                }
            }
            if tokens@.len() == 6 {
                assert(tokens_view(tokens@)[2] == token_view(tokens@[2]));
                assert(tokens_view(tokens@)[3] == token_view(tokens@[3]));
                assert(tokens_view(tokens@)[4] == token_view(tokens@[4]));
                assert(tokens_view(tokens@)[5] == token_view(tokens@[5]));
            }
        }
        proof {
            if chain_file(lex_from(input.spec_bytes(), 0)) {
                let v = chain_width_model(tokens_view(tokens@), 0)->Some_0;
                assert(tokens_view(tokens@)[v as int] == token_view(tokens@[v as int]));
                crate::syntax::grammar::lemma_kind_facts(tokens@[v as int].kind);
            }
        }
        if tokens.len() == 0 || !matches!(tokens[tokens.len() - 1].kind, TokenKind::Eof) {
            return Err(Diagnostic { code: "E_PARSE_021", message: "expected end of file".to_owned(), span: Span::new(file_id, 0, 0) });
        }
        let ghost ts = tokens@;
        proof {
            assert forall|n: nat, o: bool| #[trigger] let_lits_file(lex_from(input.spec_bytes(), 0), n, o)
                implies let_lits_tokens(ts, n, o) by {
                lemma_let_lits_view(ts, n, o);
            }
        }
        proof {
            if chain_file(lex_from(input.spec_bytes(), 0)) {
                let st = lex_from(input.spec_bytes(), 0)->Ok_0;
                lemma_width_view(ts, 0);
                let v = chain_width(ts, 0)->Some_0;
                assert(st[v as int] == crate::syntax::lexer::token_view(ts[v as int]));
                crate::syntax::grammar::lemma_kind_facts(ts[v as int].kind);
            }
        }
        let mut parser = Parser { file_id, tokens, pos: 0, nesting: input.len() };
        let f = parser.file()?;
        proof {
            assert(tokens_view(ts) == lex_from(input.spec_bytes(), 0)->Ok_0);
            assert forall|n: nat, o: bool| #[trigger] let_lits_file(lex_from(input.spec_bytes(), 0), n, o) implies
                (forall|k: int| 0 <= k < n ==> #[trigger] let_lit_decl(lex_from(input.spec_bytes(), 0)->Ok_0, 5 * k, f.decls@[k]))
                && (o ==> (f.output matches Some(e) && (e matches Expr::Spanned(x, _)
                    && lit_expr(lex_from(input.spec_bytes(), 0)->Ok_0[5 * n as int].kind, *x)))) by {
                assert(let_lits_tokens(ts, n, o));
                assert forall|k: int| 0 <= k < n implies #[trigger] let_lit_decl(lex_from(input.spec_bytes(), 0)->Ok_0, 5 * k, f.decls@[k]) by {
                    assert(let_lit_at(lex_from(input.spec_bytes(), 0)->Ok_0, 5 * k));
                    assert(let_decl_result(ts, 5 * k, f.decls@[k]));
                    assert(tokens_view(ts)[5 * k + 1] == token_view(ts[5 * k + 1]));
                    assert(tokens_view(ts)[5 * k + 3] == token_view(ts[5 * k + 3]));
                    if let Decl::Let { expr, .. } = f.decls@[k] {
                        lemma_lit_token(ts[5 * k + 3].kind, expr);
                    }
                }
                if o {
                    assert(tokens_view(ts)[5 * n as int] == token_view(ts[5 * n as int]));
                    if let Some(e) = f.output {
                        lemma_lit_token(ts[5 * n as int].kind, e);
                    }
                }
            }
        }
        Ok(f)
    }

    /// Parses the text of an interpolated expression; the result carries
    /// the span of the whole string literal.
    fn parse_embedded_expr(file_id: usize, input: &str, span: Span, nesting: usize) -> (r: Result<Expr, Diagnostic>)
        ensures
            r matches Ok(e) ==> exists|ts: Seq<Token>, q: int| #![trigger tokens_view(ts), ts[q]]
                lex_from(encode_utf8(input@), 0) == Ok::<Seq<SpecToken>, SpecLexError>(tokens_view(ts))
                && 0 <= q < ts.len() && ts[q].kind is Eof && ex_at(ts, 0, 0, e, q),
            lex_from(encode_utf8(input@), 0) matches Ok(st) && st.len() == 2 && atom_kind(st[0].kind)
                && st[1].kind is Eof ==> r is Ok,
        decreases nesting + 1, 0int, 0int,
    {
        let tokens = tokenize(file_id, input)?;
        proof {
            if tokens@.len() > 0 {
                lemma_atom_kind(tokens@[0].kind);
                assert(tokens_view(tokens@)[0] == token_view(tokens@[0]));
                if tokens@.len() > 1 {
                    assert(tokens_view(tokens@)[1] == token_view(tokens@[1]));
                }
            }
        }
        if tokens.len() == 0 || !matches!(tokens[tokens.len() - 1].kind, TokenKind::Eof) {
            return Err(Diagnostic { code: "E_PARSE_021", message: "expected end of file".to_owned(), span });
        }
        let mut parser = Parser { file_id, tokens, pos: 0, nesting };
        let expr = parser.expr()?;
        if !parser.at_eof() {
            return Err(parser.error_here("E_PARSE_010", "unexpected token after interpolation expression"));
        }
        let e = respan(expr, span);
        proof {
            let ts = parser.tokens@;
            let q = parser.pos as int;
            assert(ex_at(ts, 0, 0, expr, q));
            assert(ex_at(ts, 0, 0, e, q));
        }
        Ok(e)
    }

    fn current(&self) -> (t: &Token)
        requires
            self.wf(),
        ensures
            *t == self.tokens@[self.pos as int],
    {
        &self.tokens[self.pos]
    }

    /// The span of the token before the current one (of the first token at
    /// the start).
    fn previous_span(&self) -> (s: Span)
        requires
            self.wf(),
        ensures
            s == self.tokens@[if self.pos > 0 { self.pos - 1 } else { 0 }].span,
    {
        if self.pos > 0 {
            self.tokens[self.pos - 1].span
        } else {
            self.tokens[0].span
        }
    }

    fn error_here(&self, code: &'static str, message: &str) -> (d: Diagnostic)
        requires
            self.wf(),
        ensures
            d.code == code,
    {
        Diagnostic { code, message: message.to_owned(), span: self.current().span }
    }

    /// Moves past the current token unless it is `Eof`; returns its index.
    fn bump(&mut self) -> (i: usize)
        requires
            old(self).wf(),
        ensures
            final(self).wf(),
            final(self).same_input(old(self)),
            i == old(self).pos,
            final(self).pos == if old(self).pos + 1 < old(self).tokens@.len() { old(self).pos + 1 } else { old(self).pos as int },
    {
        let i = self.pos;
        let n = self.tokens.len();
        if self.pos < n - 1 {
            self.pos = self.pos + 1;
        }
        i
    }

    fn peek(&self, t: Tag) -> (b: bool)
        requires
            self.wf(),
        ensures
            b == (tag_of(self.tokens@[self.pos as int].kind) == t),
    {
        tag(&self.tokens[self.pos].kind) == t
    }

    fn peek_keyword(&self, keyword: &str) -> (b: bool)
        requires
            self.wf(),
        ensures
            b == (self.tokens@[self.pos as int].kind matches TokenKind::Ident(n) && n@ == keyword@),
    {
        match &self.tokens[self.pos].kind {
            TokenKind::Ident(name) => str_eq(name.as_str(), keyword),
            _ => false,
        }
    }

    fn at_eof(&self) -> (b: bool)
        requires
            self.wf(),
        ensures
            b == (self.tokens@[self.pos as int].kind is Eof),
    {
        matches!(self.tokens[self.pos].kind, TokenKind::Eof)
    }

    /// Consumes a token of the given kind.
    fn eat(&mut self, t: Tag) -> (b: bool)
        requires
            old(self).wf(),
        ensures
            final(self).wf(),
            final(self).same_input(old(self)),
            b == (tag_of(old(self).tokens@[old(self).pos as int].kind) == t),
            b && t != Tag::Eof ==> final(self).pos == old(self).pos + 1,
            !b ==> final(self).pos == old(self).pos,
    {
        if self.peek(t) {
            proof {
                if t != Tag::Eof {
                    assert(self.pos + 1 < self.tokens@.len());
                }
            }
            self.bump();
            true
        } else {
            false
        }
    }

    /// Consumes a token of the given kind or fails with `message`.
    fn expect(&mut self, t: Tag, message: &str) -> (r: Result<Span, Diagnostic>)
        requires
            old(self).wf(),
            t != Tag::Eof,
        ensures
            final(self).wf(),
            final(self).same_input(old(self)),
            r is Ok ==> final(self).pos == old(self).pos + 1,
            r is Ok ==> tg(old(self).tokens@, old(self).pos as int, t),
            r is Err ==> final(self).pos == old(self).pos,
            r is Ok == tg(old(self).tokens@, old(self).pos as int, t),
    {
        if self.peek(t) {
            assert(self.pos + 1 < self.tokens@.len());
            let i = self.bump();
            Ok(self.tokens[i].span)
        } else {
            Err(self.error_here("E_PARSE_021", message))
        }
    }

    fn expect_keyword(&mut self, keyword: &str) -> (r: Result<Span, Diagnostic>)
        requires
            old(self).wf(),
        ensures
            final(self).wf(),
            final(self).same_input(old(self)),
            r is Ok ==> final(self).pos == old(self).pos + 1,
            r is Ok ==> ident_at(old(self).tokens@, old(self).pos as int, keyword@),
            r is Err ==> final(self).pos == old(self).pos,
            r is Ok == ident_at(old(self).tokens@, old(self).pos as int, keyword@),
    {
        if self.peek_keyword(keyword) {
            assert(self.pos + 1 < self.tokens@.len());
            let i = self.bump();
            Ok(self.tokens[i].span)
        } else {
            let message = concat3("expected `", keyword, "`");
            Err(self.error_here("E_PARSE_017", message.as_str()))
        }
    }

    /// A name that is not reserved, or any capitalized name.
    fn expect_ident(&mut self, message: &str) -> (r: Result<String, Diagnostic>)
        requires
            old(self).wf(),
        ensures
            r matches Ok(n) ==> ident_at(old(self).tokens@, old(self).pos as int, n@) && field_name(n@),
            final(self).wf(),
            final(self).same_input(old(self)),
            r is Ok ==> final(self).pos == old(self).pos + 1,
            final(self).pos >= old(self).pos,
            r is Ok == (old(self).tokens@[old(self).pos as int].kind matches TokenKind::Ident(n) && field_name(n@)),
    {
        let i = self.bump();
        match &self.tokens[i].kind {
            TokenKind::Ident(name) => {
                if !is_reserved(name.as_str()) || starts_upper(name.as_str()) {
                    return Ok(name.clone());
                }
            },
            _ => {},
        }
        Err(Diagnostic { code: "E_PARSE_018", message: message.to_owned(), span: self.tokens[i].span })
    }

    /// A lowercase name that is not reserved.
    fn expect_value_name(&mut self, message: &str) -> (r: Result<String, Diagnostic>)
        requires
            old(self).wf(),
        ensures
            r matches Ok(n) ==> ident_at(old(self).tokens@, old(self).pos as int, n@) && value_name(n@),
            final(self).wf(),
            final(self).same_input(old(self)),
            r is Ok ==> final(self).pos == old(self).pos + 1,
            final(self).pos >= old(self).pos,
            r is Ok == (old(self).tokens@[old(self).pos as int].kind matches TokenKind::Ident(n) && value_name(n@)),
    {
        let i = self.bump();
        match &self.tokens[i].kind {
            TokenKind::Ident(name) => {
                if !is_reserved(name.as_str()) && !starts_upper(name.as_str()) {
                    return Ok(name.clone());
                }
            },
            _ => {},
        }
        Err(Diagnostic { code: "E_PARSE_019", message: message.to_owned(), span: self.tokens[i].span })
    }

    /// A capitalized name.
    fn expect_type_name(&mut self, message: &str) -> (r: Result<String, Diagnostic>)
        requires
            old(self).wf(),
        ensures
            r matches Ok(n) ==> ident_at(old(self).tokens@, old(self).pos as int, n@) && upper_name(n@),
            final(self).wf(),
            final(self).same_input(old(self)),
            r is Ok ==> final(self).pos == old(self).pos + 1,
            final(self).pos >= old(self).pos,
            r is Ok == (old(self).tokens@[old(self).pos as int].kind matches TokenKind::Ident(n) && upper_name(n@)),
    {
        let i = self.bump();
        match &self.tokens[i].kind {
            TokenKind::Ident(name) => {
                if starts_upper(name.as_str()) {
                    return Ok(name.clone());
                }
            },
            _ => {},
        }
        Err(Diagnostic { code: "E_PARSE_020", message: message.to_owned(), span: self.tokens[i].span })
    }
}

/// The expression with its outermost span replaced by `span`.
fn respan(expr: Expr, span: Span) -> (e: Expr)
    ensures
        e matches Expr::Spanned(_, r) && r.start == span.start && r.end == span.end,
        match expr {
            Expr::Spanned(inner, _) => e matches Expr::Spanned(x, _) && x == inner,
            other => e matches Expr::Spanned(x, _) && *x == other,
        },
{
    match expr {
        Expr::Spanned(inner, _) => Expr::Spanned(inner, range(span)),
        other => Expr::Spanned(Box::new(other), range(span)),
    }
}

/// The span carried by a parsed expression.
fn expr_span(e: &Expr, file: usize) -> (s: Span)
    ensures
        e matches Expr::Spanned(_, r) ==> s.start == r.start && s.end == r.end,
{
    match e {
        Expr::Spanned(_, r) => Span::new(file, r.start, r.end),
        _ => Span::new(file, 0, 0),
    }
}

/// The span carried by a parsed type.
fn type_span(t: &Type, file: usize) -> (s: Span)
    ensures
        t matches Type::Spanned(_, r) ==> s.start == r.start && s.end == r.end,
{
    match t {
        Type::Spanned(_, r) => Span::new(file, r.start, r.end),
        _ => Span::new(file, 0, 0),
    }
}

fn spanned(e: Expr, s: Span) -> (r: Expr)
    ensures
        r == Expr::Spanned(Box::new(e), ByteRange { start: s.start, end: s.end }),
{
    Expr::Spanned(Box::new(e), range(s))
}

fn spanned_type(t: Type, s: Span) -> (r: Type)
    ensures
        r == Type::Spanned(Box::new(t), ByteRange { start: s.start, end: s.end }),
{
    Type::Spanned(Box::new(t), range(s))
}


/// What the parser does after reading a primary token.
enum PrimaryStart {
    Ready(Expr),
    Str(Vec<StringPart>),
    SomeValue,
    List,
    Record,
    Group,
    Failed(Diagnostic),
}

/// What the type parser does after reading a primary token.
enum TypeStart {
    Ready(Type),
    Union(Vec<StringPart>),
    List,
    Group,
    Brace,
    Failed(Diagnostic),
}

fn clone_parts(parts: &Vec<StringPart>) -> (r: Vec<StringPart>)
    ensures
        r@ == parts@,
{
    let mut out: Vec<StringPart> = Vec::new();
    let mut i: usize = 0;
    while i < parts.len()
        invariant
            i <= parts@.len(),
            out@ == parts@.take(i as int),
        decreases parts.len() - i,
    {
        let part = match &parts[i] {
            StringPart::Text(t) => StringPart::Text(t.clone()),
            StringPart::Expr(t) => StringPart::Expr(t.clone()),
        };
        out.push(part);
        assert(parts@.take(i + 1) =~= parts@.take(i as int).push(parts@[i as int]));
        i = i + 1;
    }
    assert(parts@.take(parts@.len() as int) =~= parts@);
    out
}

/// The operator a token denotes at a binary precedence level.
fn binary_op_at(level: usize, t: Tag) -> (r: Option<&'static str>)
    requires
        level <= 5,
    ensures
        match r {
            Some(op) => binary_op((level + 3) as nat, t) == Some(op@),
            None => binary_op((level + 3) as nat, t) is None,
        },
{
    if level == 0 {
        if t == Tag::OrOr { Some("||") } else { None }
    } else if level == 1 {
        if t == Tag::AndAnd { Some("&&") } else { None }
    } else if level == 2 {
        if t == Tag::EqEq { Some("==") } else if t == Tag::BangEq { Some("!=") } else { None }
    } else if level == 3 {
        if t == Tag::Lt {
            Some("<")
        } else if t == Tag::LtEq {
            Some("<=")
        } else if t == Tag::Gt {
            Some(">")
        } else if t == Tag::GtEq {
            Some(">=")
        } else {
            None
        }
    } else if level == 4 {
        if t == Tag::Plus { Some("+") } else if t == Tag::Minus { Some("-") } else if t == Tag::PlusPlus { Some("++") } else { None }
    } else {
        if t == Tag::Star { Some("*") } else if t == Tag::Slash { Some("/") } else if t == Tag::Percent { Some("%") } else { None }
    }
}

impl Parser {
    fn file(&mut self) -> (r: Result<FileAst, Diagnostic>)
        requires
            old(self).wf(),
            old(self).pos == 0,
        ensures
            r matches Ok(f) ==> file_at(old(self).tokens@, f),
            trivial_file(old(self).tokens@) ==> (r matches Ok(f) && f.decls@.len() == 0
                && (old(self).tokens@.len() == 1 ==> f.output is None)
                && (old(self).tokens@.len() == 2 ==> (f.output matches Some(e) && atom_result(old(self).tokens@[0].kind, e)))),
            old(self).tokens@.len() == 6 && simple_type_decl(old(self).tokens@, 0) ==> (r matches Ok(f) && f.decls@.len() == 1
                && type_decl_result(old(self).tokens@, 0, f.decls@[0]) && f.output is None),
            old(self).tokens@.len() == 6 && simple_let_decl(old(self).tokens@, 0) ==> (r matches Ok(f) && f.decls@.len() == 1
                && let_decl_result(old(self).tokens@, 0, f.decls@[0]) && f.output is None),
            forall|n: nat, o: bool| #[trigger] let_lits_tokens(old(self).tokens@, n, o) ==> (r matches Ok(f) && f.decls@.len() == n
                && (forall|k: int| 0 <= k < n ==> #[trigger] let_decl_result(old(self).tokens@, 5 * k, f.decls@[k]))
                && (if o { f.output matches Some(e) && atom_result(old(self).tokens@[5 * n as int].kind, e) } else { f.output is None })),
            (chain_width(old(self).tokens@, 0) matches Some(v) && old(self).tokens@[v as int].kind is Eof)
                ==> (r matches Ok(f) && f.decls@.len() == 0 && f.output is Some),
    {
        let ghost t = self.tokens@;
        let ghost cf: bool = chain_width(t, 0) matches Some(v) && t[v as int].kind is Eof;
        proof {
            if cf {
                lemma_chain_first(t, 0);
                lemma_chain_stop_whole(t, 0);
                if ident_at(t, 0, "import"@) {
                    lemma_keyword_not_atom(t[0].kind, "import"@);
                }
                if ident_at(t, 0, "export"@) {
                    lemma_keyword_not_atom(t[0].kind, "export"@);
                }
                if ident_at(t, 0, "type"@) {
                    lemma_keyword_not_atom(t[0].kind, "type"@);
                }
                if ident_at(t, 0, "let"@) {
                    lemma_keyword_not_atom(t[0].kind, "let"@);
                }
            }
        }
        let ghost gl: bool = exists|n: nat, o: bool| #[trigger] let_lits_tokens(t, n, o);
        let ghost gn: nat = if gl { (choose|n: nat, o: bool| #[trigger] let_lits_tokens(t, n, o)).0 } else { 0 };
        let ghost gout: bool = if gl { (choose|n: nat, o: bool| #[trigger] let_lits_tokens(t, n, o)).1 } else { false };
        proof {
            if gl {
                assert(let_lits_tokens(t, gn, gout));
                if gn > 0 {
                    assert(simple_let_decl(t, 5 * 0int));
                    lemma_let_decl_start(t, 0);
                }
            }
        }
        proof {
            if trivial_file(t) {
                lemma_trivial_file_start(t);
            }
        }
        proof {
            if t.len() == 6 && simple_let_decl(t, 0) {
                reveal_strlit("let");
                reveal_strlit("import");
                reveal_strlit("export");
                reveal_strlit("type");
                assert("let"@.len() == 3 && "import"@.len() == 6 && "export"@.len() == 6 && "type"@.len() == 4);
                assert(semi_ahead(t, 4, 0));
                assert(semi_ahead(t, 3, 0));
                assert(semi_ahead(t, 2, 0));
                assert(semi_ahead(t, 1, 0));
                assert(semi_ahead(t, 0, 0));
            }
        }
        proof {
            if t.len() == 6 && simple_type_decl(t, 0) {
                reveal_strlit("type");
                reveal_strlit("import");
                reveal_strlit("export");
                assert("type"@.len() == 4 && "import"@.len() == 6 && "export"@.len() == 6);
            }
        }
        let mut decls: Vec<Decl> = Vec::new();
        while self.peek_keyword("import")
            invariant
                self.wf(),
                self.tokens@ == t,
                t == old(self).tokens@,
                trivial_file(t) ==> self.pos == 0 && decls@.len() == 0 && !ident_at(t, 0, "import"@),
                t.len() == 6 && simple_type_decl(t, 0) ==> self.pos == 0 && decls@.len() == 0 && !ident_at(t, 0, "import"@)
                    && !ident_at(t, 0, "export"@),
                t.len() == 6 && simple_let_decl(t, 0) ==> self.pos == 0 && decls@.len() == 0 && !ident_at(t, 0, "import"@),
                gl == exists|n: nat, o: bool| #[trigger] let_lits_tokens(t, n, o),
                gl ==> let_lits_tokens(t, gn, gout) && self.pos == 0 && decls@.len() == 0 && !ident_at(t, 0, "import"@),
                cf ==> self.pos == 0 && decls@.len() == 0 && !ident_at(t, 0, "import"@),
                cf == (chain_width(t, 0) matches Some(v) && t[v as int].kind is Eof),
                decls_at(t, 0, decls@, self.pos as int),
                forall|i: int| 0 <= i < decls@.len() ==> decls@[i] is Import,
            decreases self.remaining(),
        {
            let ghost b = self.pos as int;
            let ghost before = decls@;
            let d = self.import_decl()?;
            decls.push(d);
            proof {
                assert(decls@.drop_last() =~= before);
                assert(decl_at(t, b, decls@.last(), self.pos as int));
            }
        }
        loop
            invariant
                self.wf(),
                self.tokens@ == t,
                decls_at(t, 0, decls@, self.pos as int),
                imports_first(decls@),
                t == old(self).tokens@,
                trivial_file(t) ==> self.pos == 0 && decls@.len() == 0 && !ident_at(t, 0, "export"@) && !ident_at(t, 0, "type"@)
                    && !ident_at(t, 0, "let"@),
                cf ==> self.pos == 0 && decls@.len() == 0 && !ident_at(t, 0, "export"@) && !ident_at(t, 0, "type"@)
                    && !ident_at(t, 0, "let"@),
                cf == (chain_width(t, 0) matches Some(v) && t[v as int].kind is Eof),
                t.len() == 6 && simple_type_decl(t, 0) ==> !ident_at(t, 0, "export"@) && ((self.pos == 0 && decls@.len() == 0)
                    || (self.pos == 5 && decls@.len() == 1 && type_decl_result(t, 0, decls@[0]))),
                t.len() == 6 && simple_let_decl(t, 0) ==> !ident_at(t, 0, "export"@) && !ident_at(t, 0, "type"@)
                    && semi_ahead(t, 0, 0) && ((self.pos == 0 && decls@.len() == 0)
                    || (self.pos == 5 && decls@.len() == 1 && let_decl_result(t, 0, decls@[0]))),
                gl == exists|n: nat, o: bool| #[trigger] let_lits_tokens(t, n, o),
                gl ==> let_lits_tokens(t, gn, gout) && self.pos as int == 5 * decls@.len() && decls@.len() <= gn
                    && (forall|j: int| 0 <= j < decls@.len() ==> #[trigger] let_decl_result(t, 5 * j, decls@[j])),
            ensures
                gl ==> self.pos as int == 5 * gn && decls@.len() == gn
                    && (forall|j: int| 0 <= j < decls@.len() ==> #[trigger] let_decl_result(t, 5 * j, decls@[j])),
                t.len() == 6 && simple_type_decl(t, 0) ==> self.pos == 5 && decls@.len() == 1 && type_decl_result(t, 0, decls@[0]),
                t.len() == 6 && simple_let_decl(t, 0) ==> self.pos == 5 && decls@.len() == 1 && let_decl_result(t, 0, decls@[0]),
            decreases self.remaining(),
        {
            let ghost b = self.pos as int;
            let ghost before = decls@;
            proof {
                if gl {
                    let k = decls@.len() as int;
                    if k < gn {
                        assert(simple_let_decl(t, 5 * k));
                        lemma_let_decl_start(t, 5 * k);
                    } else if !gout {
                        assert(t[5 * k].kind is Eof);
                    } else {
                        assert(lone_atom(t, 5 * k));
                        if ident_at(t, 5 * k, "export"@) {
                            lemma_keyword_not_atom(t[5 * k].kind, "export"@);
                        }
                        if ident_at(t, 5 * k, "type"@) {
                            lemma_keyword_not_atom(t[5 * k].kind, "type"@);
                        }
                        if ident_at(t, 5 * k, "let"@) {
                            lemma_keyword_not_atom(t[5 * k].kind, "let"@);
                        }
                    }
                }
            }
            let export = if self.peek_keyword("export") {
                assert(self.pos + 1 < self.tokens@.len());
                self.bump();
                true
            } else {
                false
            };
            if self.peek_keyword("type") {
                let d = self.type_decl(export)?;
                decls.push(d);
                proof {
                    assert(decls@.drop_last() =~= before);
                    assert(decl_at(t, b, decls@.last(), self.pos as int));
                    assert forall|i: int, j: int| 0 <= i < j < decls@.len() && (#[trigger] decls@[j] is Import) implies #[trigger] decls@[i] is Import by {
                        assert(decls@[j] == before[j]);
                        assert(decls@[i] == before[i]);
                    }
                }
            } else if self.peek_keyword("let") && self.looks_like_top_let_decl() {
                let d = self.top_let_decl(export)?;
                decls.push(d);
                proof {
                    assert(decls@.drop_last() =~= before);
                    assert(decl_at(t, b, decls@.last(), self.pos as int));
                    assert forall|i: int, j: int| 0 <= i < j < decls@.len() && (#[trigger] decls@[j] is Import) implies #[trigger] decls@[i] is Import by {
                        assert(decls@[j] == before[j]);
                        assert(decls@[i] == before[i]);
                    }
                }
            } else if export {
                return Err(self.error_here("E_PARSE_011", "`export` must be followed by `type` or a top-level `let`"));
            } else {
                break;
            }
        }
        let ghost m = self.pos as int;
        proof {
            if cf {
                lemma_chain_first(t, 0);
            }
        }
        let output = if self.at_eof() {
            None
        } else {
            Some(self.expr()?)
        };
        if !self.at_eof() {
            return Err(self.error_here("E_PARSE_021", "expected end of file"));
        }
        let f = FileAst { decls, output };
        proof {
            let q = self.pos as int;
            assert(t[q].kind is Eof);
            assert(decls_at(t, 0, f.decls@, m));
        }
        Ok(f)
    }

    /// Whether a `;` follows at bracket depth zero before the end of input.
    fn looks_like_top_let_decl(&self) -> (b: bool)
        requires
            self.wf(),
        ensures
            b == semi_ahead(self.tokens@, self.pos as int, 0),
    {
        let mut depth: usize = 0;
        let mut k: usize = self.pos;
        while k < self.tokens.len()
            invariant
                self.wf(),
                self.pos <= k <= self.tokens@.len(),
                depth <= k - self.pos,
                semi_ahead(self.tokens@, self.pos as int, 0) == semi_ahead(self.tokens@, k as int, depth as nat),
            decreases self.tokens.len() - k,
        {
            match &self.tokens[k].kind {
                TokenKind::LParen | TokenKind::LBrace | TokenKind::LBracket => {
                    depth = depth + 1;
                },
                TokenKind::RParen | TokenKind::RBrace | TokenKind::RBracket => {
                    if depth > 0 {
                        depth = depth - 1;
                    }
                },
                TokenKind::Semi => {
                    if depth == 0 {
                        return true;
                    }
                },
                TokenKind::Eof => {
                    return false;
                },
                _ => {},
            }
            k = k + 1;
        }
        false
    }

    fn import_decl(&mut self) -> (r: Result<Decl, Diagnostic>)
        requires
            old(self).wf(),
        ensures
            final(self).wf(),
            final(self).same_input(old(self)),
            final(self).pos >= old(self).pos,
            r is Ok ==> final(self).pos > old(self).pos,
            r matches Ok(d) ==> d is Import && decl_at(old(self).tokens@, old(self).pos as int, d, final(self).pos as int),
            simple_import(old(self).tokens@, old(self).pos as int) ==> r is Ok && final(self).pos == old(self).pos + 5,
    {
        let ghost p = self.pos as int;
        self.expect_keyword("import")?;
        let i = self.bump();
        let path = match &self.tokens[i].kind {
            TokenKind::Str(parts) => {
                proof {
                    if simple_import(self.tokens@, p) {
                        let s = choose|s: Seq<char>| #[trigger] str_lit_at(self.tokens@, p + 1, s);
                        assert(plain_text(parts@) == Some(s));
                        assert forall|x: int| 0 <= x < parts@.len() implies (#[trigger] parts@[x]) is Text by {
                            if !(parts@[x] is Text) {
                                lemma_plain_text_none(parts@, x);
                            }
                        }
                    }
                }
                literal_string(parts, self.tokens[i].span)?
            },
            _ => {
                return Err(Diagnostic { code: "E_PARSE_012", message: "expected import path string".to_owned(), span: self.tokens[i].span });
            },
        };
        proof {
            assert(p + 2 < self.tokens@.len());
        }
        self.expect(Tag::Colon, "expected `:` after import path")?;
        let mut names: Vec<String> = Vec::new();
        loop
            invariant_except_break
                (names@.len() == 0 && self.pos == p + 3)
                    || (names@.len() > 0 && tg(self.tokens@, self.pos - 1, Tag::Comma)
                        && names_at(self.tokens@, p + 3, names@, self.pos - 1)),
                simple_import(old(self).tokens@, p) ==> names@.len() == 0 && self.pos == p + 3,
            invariant
                self.wf(),
                self.same_input(old(self)),
                self.pos > old(self).pos,
                p == old(self).pos,
            ensures
                names_at(self.tokens@, p + 3, names@, self.pos as int),
                simple_import(old(self).tokens@, p) ==> self.pos == p + 4,
            decreases self.remaining(),
        {
            let ghost b = self.pos as int;
            let ghost before = names@;
            let name = self.expect_ident("expected imported name")?;
            names.push(name);
            proof {
                assert(names@.drop_last() =~= before);
            }
            if !self.eat(Tag::Comma) {
                break;
            }
        }
        let ghost e0 = self.pos as int;
        self.expect(Tag::Semi, "expected `;` after import")?;
        proof {
            assert(tg(self.tokens@, e0, Tag::Semi));
        }
        Ok(Decl::Import { path, names })
    }

    fn type_decl(&mut self, export: bool) -> (r: Result<Decl, Diagnostic>)
        requires
            old(self).wf(),
            export ==> old(self).pos >= 1 && ident_at(old(self).tokens@, old(self).pos - 1, "export"@),
        ensures
            final(self).wf(),
            final(self).same_input(old(self)),
            final(self).pos >= old(self).pos,
            r is Ok ==> final(self).pos > old(self).pos,
            r matches Ok(d) ==> d matches Decl::Type { export: x, .. } && x == export
                && decl_at(old(self).tokens@, if export { old(self).pos - 1 } else { old(self).pos as int }, d, final(self).pos as int),
            simple_type_decl(old(self).tokens@, old(self).pos as int) ==> (r matches Ok(d) && type_decl_result(old(self).tokens@, old(self).pos as int, d)
                && final(self).pos == old(self).pos + 5),
    {
        let ghost s0 = self.pos as int;
        self.expect_keyword("type")?;
        let name = self.expect_type_name("expected type name")?;
        self.expect(Tag::Eq, "expected `=` in type declaration")?;
        let ty = self.ty()?;
        let ghost e0 = self.pos as int;
        self.expect(Tag::Semi, "expected `;` after type declaration")?;
        proof {
            assert(tg(self.tokens@, e0, Tag::Semi));
            assert(ty_at(self.tokens@, 0, s0 + 3, ty, e0));
        }
        Ok(Decl::Type { export, name, ty })
    }

    fn top_let_decl(&mut self, export: bool) -> (r: Result<Decl, Diagnostic>)
        requires
            old(self).wf(),
            export ==> old(self).pos >= 1 && ident_at(old(self).tokens@, old(self).pos - 1, "export"@),
        ensures
            final(self).wf(),
            final(self).same_input(old(self)),
            final(self).pos >= old(self).pos,
            r is Ok ==> final(self).pos > old(self).pos,
            r matches Ok(d) ==> d matches Decl::Let { export: x, .. } && x == export
                && decl_at(old(self).tokens@, if export { old(self).pos - 1 } else { old(self).pos as int }, d, final(self).pos as int),
            simple_let_decl(old(self).tokens@, old(self).pos as int) ==> (r matches Ok(d) && let_decl_result(old(self).tokens@, old(self).pos as int, d)
                && final(self).pos == old(self).pos + 5),
    {
        let ghost s0 = self.pos as int;
        self.expect_keyword("let")?;
        let name = self.expect_value_name("expected value name")?;
        let colon = self.eat(Tag::Colon);
        let annotation = if colon {
            Some(self.ty()?)
        } else {
            None
        };
        let ghost k = self.pos as int;
        proof {
            let t = self.tokens@;
            assert(annotation matches Some(a) ==> tg(t, s0 + 2, Tag::Colon) && ty_at(t, 0, s0 + 3, a, k));
            assert(annotation is None ==> k == s0 + 2);
        }
        self.expect(Tag::Eq, "expected `=` in let declaration")?;
        let expr = self.expr()?;
        let ghost e0 = self.pos as int;
        self.expect(Tag::Semi, "expected `;` after let declaration")?;
        proof {
            let t = self.tokens@;
            assert(tg(t, e0, Tag::Semi));
            assert(tg(t, k, Tag::Eq));
            assert(ex_at(t, 0, k + 1, expr, e0));
            if annotation is Some {
                assert(ty_at(t, 0, s0 + 3, annotation->0, k));
            }
        }
        Ok(Decl::Let { export, name, annotation, expr })
    }

    fn ty(&mut self) -> (r: Result<Type, Diagnostic>)
        requires
            old(self).wf(),
        ensures
            final(self).wf(),
            final(self).same_input(old(self)),
            final(self).pos >= old(self).pos,
            r is Ok ==> final(self).pos > old(self).pos,
            r matches Ok(t) ==> t is Spanned,
            r matches Ok(t) ==> ty_at(old(self).tokens@, 0, old(self).pos as int, t, final(self).pos as int),
            lone_type(old(self).tokens@, old(self).pos as int) ==> (r matches Ok(t) && type_result(old(self).tokens@[old(self).pos as int].kind, t)
                && final(self).pos == old(self).pos + 1),
        decreases old(self).depth_spec(), old(self).remaining(), 5int,
    {
        self.fun_ty()
    }

    fn fun_ty(&mut self) -> (r: Result<Type, Diagnostic>)
        requires
            old(self).wf(),
        ensures
            final(self).wf(),
            final(self).same_input(old(self)),
            final(self).pos >= old(self).pos,
            r is Ok ==> final(self).pos > old(self).pos,
            r matches Ok(t) ==> t is Spanned,
            r matches Ok(t) ==> ty_at(old(self).tokens@, 0, old(self).pos as int, t, final(self).pos as int),
            lone_type(old(self).tokens@, old(self).pos as int) ==> (r matches Ok(t) && type_result(old(self).tokens@[old(self).pos as int].kind, t)
                && final(self).pos == old(self).pos + 1),
        decreases old(self).depth_spec(), old(self).remaining(), 4int,
    {
        let ghost p = self.pos as int;
        let left = self.postfix_ty()?;
        let ghost m = self.pos as int;
        if self.eat(Tag::Arrow) {
            let right = self.fun_ty()?;
            let span = join(type_span(&left, self.file_id), type_span(&right, self.file_id));
            proof {
                let t = self.tokens@;
                assert(ty_at(t, 1, p, left, m));
                assert(tg(t, m, Tag::Arrow));
                assert(ty_at(t, 0, p, Type::Function(Box::new(left), Box::new(right)), self.pos as int));
            }
            Ok(spanned_type(Type::Function(Box::new(left), Box::new(right)), span))
        } else {
            proof {
                lemma_ty_lift(self.tokens@, 1, 0, p, left, m);
            }
            Ok(left)
        }
    }

    fn postfix_ty(&mut self) -> (r: Result<Type, Diagnostic>)
        requires
            old(self).wf(),
        ensures
            final(self).wf(),
            final(self).same_input(old(self)),
            final(self).pos >= old(self).pos,
            r is Ok ==> final(self).pos > old(self).pos,
            r matches Ok(t) ==> t is Spanned,
            r matches Ok(t) ==> ty_at(old(self).tokens@, 1, old(self).pos as int, t, final(self).pos as int),
            lone_type(old(self).tokens@, old(self).pos as int) ==> (r matches Ok(t) && type_result(old(self).tokens@[old(self).pos as int].kind, t)
                && final(self).pos == old(self).pos + 1),
        decreases old(self).depth_spec(), old(self).remaining(), 3int,
    {
        let ghost p = self.pos as int;
        let mut ty = self.primary_ty()?;
        proof {
            lemma_ty_lift(self.tokens@, 2, 1, p, ty, self.pos as int);
        }
        loop
            invariant
                self.wf(),
                self.same_input(old(self)),
                self.pos > old(self).pos,
                p == old(self).pos,
                ty is Spanned,
                ty_at(self.tokens@, 1, p, ty, self.pos as int),
                lone_type(old(self).tokens@, p) ==> self.pos == p + 1 && type_result(old(self).tokens@[p].kind, ty),
            decreases self.remaining(),
        {
            let ghost b = self.pos as int;
            let ghost x = ty;
            if !self.eat(Tag::Question) {
                break;
            }
            let span = join(type_span(&ty, self.file_id), self.previous_span());
            ty = spanned_type(Type::Option(Box::new(ty)), span);
            proof {
                assert(ty_at(self.tokens@, 1, p, x, b));
                assert(ty_at(self.tokens@, 1, p, Type::Option(Box::new(x)), self.pos as int));
            }
        }
        Ok(ty)
    }

    fn primary_ty(&mut self) -> (r: Result<Type, Diagnostic>)
        requires
            old(self).wf(),
        ensures
            final(self).wf(),
            final(self).same_input(old(self)),
            final(self).pos >= old(self).pos,
            r is Ok ==> final(self).pos > old(self).pos,
            r matches Ok(t) ==> t is Spanned,
            r matches Ok(t) ==> ty_at(old(self).tokens@, 2, old(self).pos as int, t, final(self).pos as int),
            lone_type(old(self).tokens@, old(self).pos as int) ==> (r matches Ok(t) && type_result(old(self).tokens@[old(self).pos as int].kind, t)
                && final(self).pos == old(self).pos + 1),
        decreases old(self).depth_spec(), old(self).remaining(), 2int,
    {
        let ghost p = self.pos as int;
        let i = self.bump();
        proof {
            if !(self.tokens@[p].kind is Eof) {
                assert(p + 1 < self.tokens@.len());
            }
        }
        let span = self.tokens[i].span;
        let start = match &self.tokens[i].kind {
            TokenKind::Ident(name) => {
                let n = name.as_str();
                if str_eq(n, "Int") {
                    TypeStart::Ready(Type::Int)
                } else if str_eq(n, "Float") {
                    TypeStart::Ready(Type::Float)
                } else if str_eq(n, "Bool") {
                    TypeStart::Ready(Type::Bool)
                } else if str_eq(n, "String") {
                    TypeStart::Ready(Type::String)
                } else if starts_upper(n) {
                    TypeStart::Ready(Type::Alias(name.clone()))
                } else {
                    TypeStart::Failed(Diagnostic { code: "E_PARSE_014", message: "expected type".to_owned(), span })
                }
            },
            TokenKind::Str(parts) => TypeStart::Union(clone_parts(parts)),
            TokenKind::LBracket => TypeStart::List,
            TokenKind::LParen => TypeStart::Group,
            TokenKind::LBrace => TypeStart::Brace,
            _ => TypeStart::Failed(Diagnostic { code: "E_PARSE_014", message: "expected type".to_owned(), span }),
        };
        proof {
            let t = self.tokens@;
            assert(start matches TypeStart::Ready(x) ==> ty_at(t, 2, p, x, p + 1) && self.pos == p + 1);
            assert(start matches TypeStart::Union(ps) ==> (t[p].kind matches TokenKind::Str(sp) && sp@ == ps@) && self.pos == p + 1);
            assert(start is List ==> tg(t, p, Tag::LBracket) && self.pos == p + 1);
            assert(start is Group ==> tg(t, p, Tag::LParen) && self.pos == p + 1);
            assert(start is Brace ==> tg(t, p, Tag::LBrace) && self.pos == p + 1);
        }
        match start {
            TypeStart::Ready(t) => Ok(spanned_type(t, span)),
            TypeStart::Union(parts) => {
                let first = literal_string(&parts, span)?;
                let mut literals: Vec<String> = Vec::new();
                literals.push(first);
                let mut whole = span;
                proof {
                    assert(literals@[0] == first);
                }
                loop
                    invariant
                        self.wf(),
                        self.same_input(old(self)),
                        self.pos > old(self).pos,
                        p == old(self).pos,
                        union_at(self.tokens@, p, literals@, self.pos as int),
                        !lone_type(old(self).tokens@, p),
                    decreases self.remaining(),
                {
                    let ghost b = self.pos as int;
                    if !self.eat(Tag::Pipe) {
                        break;
                    }
                    let j = self.bump();
                    let lit_span = self.tokens[j].span;
                    let text = match &self.tokens[j].kind {
                        TokenKind::Str(parts) => literal_string(parts, lit_span)?,
                        _ => {
                            return Err(Diagnostic { code: "E_PARSE_013", message: "expected string literal in literal union".to_owned(), span: lit_span });
                        },
                    };
                    proof {
                        assert(b + 2 < self.tokens@.len());
                    }
                    whole = join(whole, lit_span);
                    let ghost before = literals@;
                    literals.push(text);
                    proof {
                        assert(literals@.drop_last() =~= before);
                    }
                }
                proof {
                    assert(ty_at(self.tokens@, 2, p, Type::LiteralUnion(literals), self.pos as int));
                }
                Ok(spanned_type(Type::LiteralUnion(literals), whole))
            },
            TypeStart::List => {
                let inner = self.ty()?;
                let end = self.expect(Tag::RBracket, "expected `]` after list type")?;
                proof {
                    assert(ty_at(self.tokens@, 2, p, Type::List(Box::new(inner)), self.pos as int));
                }
                Ok(spanned_type(Type::List(Box::new(inner)), join(span, end)))
            },
            TypeStart::Group => {
                let inner = self.ty()?;
                self.expect(Tag::RParen, "expected `)` after type")?;
                proof {
                    lemma_ty_fall(self.tokens@, 2, p, inner, self.pos as int);
                }
                Ok(inner)
            },
            TypeStart::Brace => self.brace_ty(span),
            TypeStart::Failed(d) => Err(d),
        }
    }

    fn brace_ty(&mut self, start: Span) -> (r: Result<Type, Diagnostic>)
        requires
            old(self).wf(),
            old(self).pos >= 1,
            tg(old(self).tokens@, old(self).pos - 1, Tag::LBrace),
        ensures
            final(self).wf(),
            final(self).same_input(old(self)),
            final(self).pos >= old(self).pos,
            r matches Ok(t) ==> t is Spanned,
            r matches Ok(t) ==> ty_at(old(self).tokens@, 2, old(self).pos - 1, t, final(self).pos as int),
            tg(old(self).tokens@, old(self).pos as int, Tag::RBrace) ==> r is Ok && final(self).pos == old(self).pos + 1,
            field_name_at(old(self).tokens@, old(self).pos as int) && tg(old(self).tokens@, old(self).pos as int + 1, Tag::Colon) && lone_type(old(self).tokens@, old(self).pos as int + 2) && tg(old(self).tokens@, old(self).pos as int + 3, Tag::RBrace)
                ==> r is Ok && final(self).pos == old(self).pos + 4,
            field_name_at(old(self).tokens@, old(self).pos as int) && tg(old(self).tokens@, old(self).pos as int + 1, Tag::Colon) && lone_type(old(self).tokens@, old(self).pos as int + 2) && tg(old(self).tokens@, old(self).pos as int + 3, Tag::Pipe)
                && lone_atom(old(self).tokens@, old(self).pos as int + 4) && tg(old(self).tokens@, old(self).pos as int + 5, Tag::RBrace) ==> r is Ok && final(self).pos == old(self).pos + 6,
        decreases old(self).depth_spec(), old(self).remaining(), 6int,
    {
        let ghost p = self.pos - 1;
        if self.eat(Tag::RBrace) {
            let span = join(start, self.previous_span());
            let fields: Vec<(String, Type)> = Vec::new();
            proof {
                assert(distinct_names(field_names(fields@)));
                assert(ty_at(self.tokens@, 2, p, Type::Record(fields), self.pos as int));
            }
            return Ok(spanned_type(Type::Record(fields), span));
        }
        let name = self.expect_ident("expected field or refinement binder")?;
        self.expect(Tag::Colon, "expected `:` in record or refinement type")?;
        let first_ty = self.ty()?;
        let ghost k = self.pos as int;
        if self.eat(Tag::Pipe) {
            let pred = self.expr()?;
            let end = self.expect(Tag::RBrace, "expected `}` after refinement type")?;
            proof {
                assert(ty_at(self.tokens@, 0, p + 3, first_ty, k));
                assert(tg(self.tokens@, k, Tag::Pipe));
                assert(ty_at(self.tokens@, 2, p, Type::Refinement { binder: name, base: Box::new(first_ty), pred: Box::new(pred) }, self.pos as int));
            }
            return Ok(spanned_type(
                Type::Refinement { binder: name, base: Box::new(first_ty), pred: Box::new(pred) },
                join(start, end),
            ));
        }
        let mut fields: Vec<(String, Type)> = Vec::new();
        fields.push((name, first_ty));
        proof {
            assert(tfield_at(self.tokens@, p + 1, fields@[0], k));
            assert(tfields_body(self.tokens@, p + 1, fields@, k));
            assert(distinct_names(field_names(fields@)));
        }
        loop
            invariant_except_break
                tfields_body(self.tokens@, p + 1, fields@, self.pos as int),
                field_name_at(old(self).tokens@, p + 1) && tg(old(self).tokens@, p + 2, Tag::Colon) && lone_type(old(self).tokens@, p + 3)
                    && tg(old(self).tokens@, p + 4, Tag::RBrace) ==> self.pos == p + 4,
            invariant
                !tg(old(self).tokens@, p + 1, Tag::RBrace),
                !(field_name_at(old(self).tokens@, p + 1) && tg(old(self).tokens@, p + 2, Tag::Colon)
                    && lone_type(old(self).tokens@, p + 3) && tg(old(self).tokens@, p + 4, Tag::Pipe)),
                self.wf(),
                self.same_input(old(self)),
                self.pos > old(self).pos,
                p == old(self).pos - 1,
                fields@.len() > 0,
                distinct_names(field_names(fields@)),
            ensures
                tfields_at(self.tokens@, p + 1, fields@, self.pos as int),
                field_name_at(old(self).tokens@, p + 1) && tg(old(self).tokens@, p + 2, Tag::Colon) && lone_type(old(self).tokens@, p + 3)
                    && tg(old(self).tokens@, p + 4, Tag::RBrace) ==> self.pos == p + 4,
            decreases self.remaining(),
        {
            let ghost b = self.pos as int;
            if !self.eat(Tag::Comma) {
                break;
            }
            if self.peek(Tag::RBrace) {
                break;
            }
            let field_span = self.tokens[self.pos].span;
            let field = self.expect_ident("expected field name")?;
            if has_field(&fields, &field) {
                return Err(duplicate_field(&field, field_span));
            }
            self.expect(Tag::Colon, "expected `:` after field name")?;
            let ty = self.ty()?;
            let ghost before = fields@;
            fields.push((field, ty));
            proof {
                let t = self.tokens@;
                assert(fields@.drop_last() =~= before);
                assert(tfield_at(t, b + 1, fields@.last(), self.pos as int));
                assert(tfields_body(t, p + 1, fields@.drop_last(), b));
                assert(tg(t, b, Tag::Comma));
                assert(tfields_body(t, p + 1, fields@, self.pos as int));
                lemma_push_distinct(before, fields@.last());
            }
        }
        let end = self.expect(Tag::RBrace, "expected `}` after record type")?;
        proof {
            assert(ty_at(self.tokens@, 2, p, Type::Record(fields), self.pos as int));
        }
        Ok(spanned_type(Type::Record(fields), join(start, end)))
    }

    fn expr(&mut self) -> (r: Result<Expr, Diagnostic>)
        requires
            old(self).wf(),
        ensures
            final(self).wf(),
            final(self).same_input(old(self)),
            final(self).pos >= old(self).pos,
            r is Ok ==> final(self).pos > old(self).pos,
            r matches Ok(e) ==> e is Spanned,
            r matches Ok(e) ==> ex_at(old(self).tokens@, 0, old(self).pos as int, e, final(self).pos as int),
            lone_atom(old(self).tokens@, old(self).pos as int) ==> (r matches Ok(e) && atom_result(old(self).tokens@[old(self).pos as int].kind, e)
                && final(self).pos == old(self).pos + 1),
            simple_let(old(self).tokens@, old(self).pos as int) ==> r is Ok && final(self).pos == old(self).pos + 6,
            simple_if(old(self).tokens@, old(self).pos as int) ==> r is Ok && final(self).pos == old(self).pos + 6,
            chain_width(old(self).tokens@, old(self).pos as int) matches Some(v) ==> (r is Ok && final(self).pos == old(self).pos as int + v),
        decreases old(self).depth_spec(), old(self).remaining(), 30int,
    {
        proof {
            let t = self.tokens@;
            let p = self.pos as int;
            if chain_width(t, p) is Some && ident_at(t, p, "let"@) {
                lemma_chain_first(t, p);
                lemma_keyword_not_atom(t[p].kind, "let"@);
            }
        }
        if self.peek_keyword("let") {
            proof {
                reveal_strlit("let");
                lemma_keyword_not_atom(self.tokens@[self.pos as int].kind, "let"@);
                reveal_strlit("if");
                assert("if"@.len() != "let"@.len());
            }
            return self.let_expr();
        }
        let ghost p = self.pos as int;
        let e = self.ascription_expr()?;
        proof {
            lemma_ex_lift(self.tokens@, 1, 0, p, e, self.pos as int);
        }
        Ok(e)
    }

    fn let_expr(&mut self) -> (r: Result<Expr, Diagnostic>)
        requires
            old(self).wf(),
        ensures
            final(self).wf(),
            final(self).same_input(old(self)),
            final(self).pos >= old(self).pos,
            r is Ok ==> final(self).pos > old(self).pos,
            r matches Ok(e) ==> e is Spanned,
            r matches Ok(e) ==> ex_at(old(self).tokens@, 0, old(self).pos as int, e, final(self).pos as int),
            simple_let(old(self).tokens@, old(self).pos as int) ==> r is Ok && final(self).pos == old(self).pos + 6,
        decreases old(self).depth_spec(), old(self).remaining(), 29int,
    {
        let ghost p = self.pos as int;
        let start = self.expect_keyword("let")?;
        let name = self.expect_value_name("expected local binding name")?;
        let colon = self.eat(Tag::Colon);
        let annotation = if colon {
            Some(self.ty()?)
        } else {
            None
        };
        let ghost k = self.pos as int;
        proof {
            let t = self.tokens@;
            assert(annotation matches Some(a) ==> tg(t, p + 2, Tag::Colon) && ty_at(t, 0, p + 3, a, k) && p + 3 < k);
            assert(annotation is None ==> k == p + 2);
        }
        self.expect(Tag::Eq, "expected `=` in let expression")?;
        let value = self.expr()?;
        let ghost m = self.pos as int;
        self.expect_keyword("in")?;
        let body = self.expr()?;
        let span = join(start, expr_span(&body, self.file_id));
        proof {
            let t = self.tokens@;
            assert(ex_at(t, 0, k + 1, value, m));
            if annotation is Some {
                assert(ty_at(t, 0, p + 3, annotation->0, k));
            }
            assert(ex_at(t, 0, p, Expr::Let(name, annotation, Box::new(value), Box::new(body)), self.pos as int));
        }
        Ok(spanned(Expr::Let(name, annotation, Box::new(value), Box::new(body)), span))
    }

    fn ascription_expr(&mut self) -> (r: Result<Expr, Diagnostic>)
        requires
            old(self).wf(),
        ensures
            final(self).wf(),
            final(self).same_input(old(self)),
            final(self).pos >= old(self).pos,
            r is Ok ==> final(self).pos > old(self).pos,
            r matches Ok(e) ==> e is Spanned,
            r matches Ok(e) ==> ex_at(old(self).tokens@, 1, old(self).pos as int, e, final(self).pos as int),
            lone_atom(old(self).tokens@, old(self).pos as int) ==> (r matches Ok(e) && atom_result(old(self).tokens@[old(self).pos as int].kind, e)
                && final(self).pos == old(self).pos + 1),
            simple_if(old(self).tokens@, old(self).pos as int) ==> r is Ok && final(self).pos == old(self).pos + 6,
            chain_width(old(self).tokens@, old(self).pos as int) matches Some(v) ==> (r is Ok && final(self).pos == old(self).pos as int + v),
        decreases old(self).depth_spec(), old(self).remaining(), 28int,
    {
        let ghost p = self.pos as int;
        let expr = self.plain_expr()?;
        let ghost m = self.pos as int;
        proof {
            if chain_width(self.tokens@, p) is Some {
                lemma_chain_stop_whole(self.tokens@, p);
            }
        }
        if self.eat(Tag::Colon) {
            let ty = self.ty()?;
            let span = join(expr_span(&expr, self.file_id), type_span(&ty, self.file_id));
            proof {
                assert(ex_at(self.tokens@, 2, p, expr, m));
                assert(tg(self.tokens@, m, Tag::Colon));
                assert(ex_at(self.tokens@, 1, p, Expr::Ascribe(Box::new(expr), ty), self.pos as int));
            }
            Ok(spanned(Expr::Ascribe(Box::new(expr), ty), span))
        } else {
            proof {
                lemma_ex_lift(self.tokens@, 2, 1, p, expr, m);
            }
            Ok(expr)
        }
    }

    fn plain_expr(&mut self) -> (r: Result<Expr, Diagnostic>)
        requires
            old(self).wf(),
        ensures
            final(self).wf(),
            final(self).same_input(old(self)),
            final(self).pos >= old(self).pos,
            r is Ok ==> final(self).pos > old(self).pos,
            r matches Ok(e) ==> e is Spanned,
            r matches Ok(e) ==> ex_at(old(self).tokens@, 2, old(self).pos as int, e, final(self).pos as int),
            lone_atom(old(self).tokens@, old(self).pos as int) ==> (r matches Ok(e) && atom_result(old(self).tokens@[old(self).pos as int].kind, e)
                && final(self).pos == old(self).pos + 1),
            simple_if(old(self).tokens@, old(self).pos as int) ==> r is Ok && final(self).pos == old(self).pos + 6,
            chain_width(old(self).tokens@, old(self).pos as int) matches Some(v) ==> (r is Ok && final(self).pos == old(self).pos as int + v),
        decreases old(self).depth_spec(), old(self).remaining(), 27int,
    {
        proof {
            let t = self.tokens@;
            let p = self.pos as int;
            if chain_width(t, p) is Some {
                lemma_chain_first(t, p);
                lemma_chain_stop_whole(t, p);
                if ident_at(t, p, "if"@) {
                    lemma_keyword_not_atom(t[p].kind, "if"@);
                }
                if tg(t, p, Tag::LParen) {
                    let w = operand_width(t, p)->Some_0;
                    let inner = chain_width(t, p + 1)->Some_0;
                    assert(w == inner + 2);
                    lemma_group_scan(t, p + 1, 1);
                    assert(arrow_after_group(t, p, 0) == arrow_after_group(t, p + 1, 1));
                    assert(arrow_after_group(t, p + 1 + inner, 1) == (p + 2 + inner < t.len() && t[p + 2 + inner].kind is FatArrow));
                    if closes_expr(t[p + w].kind) {
                        lemma_closes_no_op(t[p + w].kind);
                    }
                }
            }
        }
        if self.starts_lambda() {
            self.lambda_expr()
        } else if self.peek_keyword("if") {
            proof {
                reveal_strlit("if");
                lemma_keyword_not_atom(self.tokens@[self.pos as int].kind, "if"@);
            }
            self.if_expr()
        } else {
            let ghost p = self.pos as int;
            let e = self.binary(0)?;
            proof {
                lemma_ex_lift(self.tokens@, 3, 2, p, e, self.pos as int);
            }
            Ok(e)
        }
    }

    /// Whether the current `(` opens a lambda: its matching `)` is followed
    /// by `=>`.
    fn starts_lambda(&self) -> (b: bool)
        requires
            self.wf(),
        ensures
            b == (tag_of(self.tokens@[self.pos as int].kind) == Tag::LParen && arrow_after_group(self.tokens@, self.pos as int, 0)),
    {
        if !self.peek(Tag::LParen) {
            return false;
        }
        let mut depth: usize = 0;
        let mut k: usize = self.pos;
        while k < self.tokens.len()
            invariant
                self.wf(),
                self.pos <= k <= self.tokens@.len(),
                depth <= k - self.pos,
                tag_of(self.tokens@[self.pos as int].kind) == Tag::LParen,
                arrow_after_group(self.tokens@, self.pos as int, 0) == arrow_after_group(self.tokens@, k as int, depth as nat),
            decreases self.tokens.len() - k,
        {
            match &self.tokens[k].kind {
                TokenKind::LParen => {
                    depth = depth + 1;
                },
                TokenKind::RParen => {
                    if depth > 0 {
                        depth = depth - 1;
                    }
                    if depth == 0 {
                        return k + 1 < self.tokens.len() && matches!(self.tokens[k + 1].kind, TokenKind::FatArrow);
                    }
                },
                TokenKind::Eof => {
                    return false;
                },
                _ => {},
            }
            k = k + 1;
        }
        false
    }

    fn lambda_expr(&mut self) -> (r: Result<Expr, Diagnostic>)
        requires
            old(self).wf(),
        ensures
            final(self).wf(),
            final(self).same_input(old(self)),
            final(self).pos >= old(self).pos,
            r is Ok ==> final(self).pos > old(self).pos,
            r matches Ok(e) ==> e is Spanned,
            r matches Ok(e) ==> ex_at(old(self).tokens@, 2, old(self).pos as int, e, final(self).pos as int),
            simple_lambda(old(self).tokens@, old(self).pos as int) ==> r is Ok && final(self).pos == old(self).pos + 7,
        decreases old(self).depth_spec(), old(self).remaining(), 26int,
    {
        let ghost p = self.pos as int;
        let start = self.expect(Tag::LParen, "expected `(`")?;
        let param = self.expect_value_name("expected lambda parameter")?;
        self.expect(Tag::Colon, "expected `:` after lambda parameter")?;
        let param_ty = self.ty()?;
        let ghost k = self.pos as int;
        self.expect(Tag::RParen, "expected `)` after lambda parameter")?;
        self.expect(Tag::FatArrow, "expected `=>` after lambda parameter")?;
        let body = self.expr()?;
        let span = join(start, expr_span(&body, self.file_id));
        proof {
            assert(ty_at(self.tokens@, 0, p + 3, param_ty, k));
            assert(ex_at(self.tokens@, 2, p, Expr::Lambda(param, param_ty, Box::new(body)), self.pos as int));
        }
        Ok(spanned(Expr::Lambda(param, param_ty, Box::new(body)), span))
    }

    fn if_expr(&mut self) -> (r: Result<Expr, Diagnostic>)
        requires
            old(self).wf(),
        ensures
            final(self).wf(),
            final(self).same_input(old(self)),
            final(self).pos >= old(self).pos,
            r is Ok ==> final(self).pos > old(self).pos,
            r matches Ok(e) ==> e is Spanned,
            r matches Ok(e) ==> ex_at(old(self).tokens@, 2, old(self).pos as int, e, final(self).pos as int),
            simple_if(old(self).tokens@, old(self).pos as int) ==> r is Ok && final(self).pos == old(self).pos + 6,
        decreases old(self).depth_spec(), old(self).remaining(), 26int,
    {
        let ghost p = self.pos as int;
        let start = self.expect_keyword("if")?;
        let cond = self.expr()?;
        let ghost m = self.pos as int;
        self.expect_keyword("then")?;
        let then_expr = self.expr()?;
        let ghost n = self.pos as int;
        self.expect_keyword("else")?;
        let else_expr = self.expr()?;
        let span = join(start, expr_span(&else_expr, self.file_id));
        proof {
            let t = self.tokens@;
            assert(ex_at(t, 0, p + 1, cond, m));
            assert(ex_at(t, 0, m + 1, then_expr, n));
            assert(ex_at(t, 2, p, Expr::If(Box::new(cond), Box::new(then_expr), Box::new(else_expr)), self.pos as int));
        }
        Ok(spanned(Expr::If(Box::new(cond), Box::new(then_expr), Box::new(else_expr)), span))
    }

    /// Left-associative binary operators at precedence `level` (0 is `||`,
    /// 5 is multiplicative).
    fn binary(&mut self, level: usize) -> (r: Result<Expr, Diagnostic>)
        requires
            old(self).wf(),
            level <= 5,
        ensures
            final(self).wf(),
            final(self).same_input(old(self)),
            final(self).pos >= old(self).pos,
            r is Ok ==> final(self).pos > old(self).pos,
            r matches Ok(e) ==> e is Spanned,
            r matches Ok(e) ==> ex_at(old(self).tokens@, (level + 3) as nat, old(self).pos as int, e, final(self).pos as int),
            lone_atom(old(self).tokens@, old(self).pos as int) ==> (r matches Ok(e) && atom_result(old(self).tokens@[old(self).pos as int].kind, e)
                && final(self).pos == old(self).pos + 1),
            chain_width(old(self).tokens@, old(self).pos as int) is Some ==> (r is Ok && final(self).pos == chain_stop(old(self).tokens@, old(self).pos as int, (level + 3) as nat)),
        decreases old(self).depth_spec(), old(self).remaining(), 25 - level,
    {
        let ghost p = self.pos as int;
        let ghost l: nat = (level + 3) as nat;
        let ghost tk = self.tokens@;
        let ghost wch: bool = chain_width(tk, p) is Some;
        proof {
            if wch && level == 5 {
                lemma_chain_first(tk, p);
            }
        }
        let mut expr = if level == 5 {
            self.unary()?
        } else {
            self.binary(level + 1)?
        };
        proof {
            lemma_ex_lift(self.tokens@, l + 1, l, p, expr, self.pos as int);
        }
        let ghost mut wq: int = p;
        loop
            invariant
                self.wf(),
                self.same_input(old(self)),
                self.pos > old(self).pos,
                p == old(self).pos,
                l == level + 3,
                expr is Spanned,
                level <= 5,
                tk == old(self).tokens@,
                ex_at(self.tokens@, l, p, expr, self.pos as int),
                lone_atom(old(self).tokens@, p) ==> self.pos == p + 1 && atom_result(old(self).tokens@[p].kind, expr),
                wch == (chain_width(tk, p) is Some),
                wch ==> chain_width(tk, wq) is Some && self.pos == chain_stop(tk, wq, l + 1)
                    && chain_stop(tk, p, l) == chain_stop(tk, wq, l),
            ensures
                wch ==> self.pos == chain_stop(tk, p, l),
            decreases self.remaining(),
        {
            proof {
                if wch {
                    lemma_chain_stop_step(tk, wq, l);
                    let f1 = chain_stop(tk, wq, l + 1);
                    if closes_expr(tk[f1].kind) {
                        lemma_closes_no_op(tk[f1].kind);
                    }
                    lemma_op_level(tag_of(tk[f1].kind), l);
                }
            }
            let t = tag(&self.tokens[self.pos].kind);
            let op = match binary_op_at(level, t) {
                Some(op) => op,
                None => break,
            };
            if t == Tag::Eof {
                break;
            }
            assert(self.pos + 1 < self.tokens@.len());
            let ghost m = self.pos as int;
            let ghost lhs = expr;
            self.bump();
            let ghost nq: int = m + 1;
            proof {
                if wch {
                    assert(chain_width(tk, nq) is Some);
                    if level == 5 {
                        lemma_chain_first(tk, nq);
                    }
                }
            }
            let rhs = if level == 5 {
                self.unary()?
            } else {
                self.binary(level + 1)?
            };
            proof {
                if wch {
                    if level == 5 {
                        lemma_chain_first(tk, nq);
                    }
                    wq = nq;
                }
            }
            let span = join(expr_span(&expr, self.file_id), expr_span(&rhs, self.file_id));
            let op_text = op.to_owned();
            proof {
                assert(ex_at(self.tokens@, l, p, lhs, m));
                assert(ex_at(self.tokens@, l, p, Expr::Binary(op_text, Box::new(lhs), Box::new(rhs)), self.pos as int));
            }
            expr = spanned(Expr::Binary(op_text, Box::new(expr), Box::new(rhs)), span);
        }
        Ok(expr)
    }

    fn unary(&mut self) -> (r: Result<Expr, Diagnostic>)
        requires
            old(self).wf(),
        ensures
            final(self).wf(),
            final(self).same_input(old(self)),
            final(self).pos >= old(self).pos,
            r is Ok ==> final(self).pos > old(self).pos,
            r matches Ok(e) ==> e is Spanned,
            r matches Ok(e) ==> ex_at(old(self).tokens@, 9, old(self).pos as int, e, final(self).pos as int),
            lone_atom(old(self).tokens@, old(self).pos as int) ==> (r matches Ok(e) && atom_result(old(self).tokens@[old(self).pos as int].kind, e)
                && final(self).pos == old(self).pos + 1),
            operand_then(old(self).tokens@, old(self).pos as int) ==> (r is Ok && final(self).pos == old(self).pos as int + operand_width(old(self).tokens@, old(self).pos as int)->Some_0),
        decreases old(self).depth_spec(), old(self).remaining(), 19int,
    {
        let ghost p = self.pos as int;
        if self.eat(Tag::Bang) {
            let start = self.previous_span();
            let e = self.unary()?;
            let span = join(start, expr_span(&e, self.file_id));
            let op = "!".to_owned();
            proof {
                reveal_strlit("!");
                assert(ex_at(self.tokens@, 9, p, Expr::Unary(op, Box::new(e)), self.pos as int));
            }
            Ok(spanned(Expr::Unary(op, Box::new(e)), span))
        } else if self.eat(Tag::Minus) {
            let start = self.previous_span();
            let e = self.unary()?;
            let span = join(start, expr_span(&e, self.file_id));
            let op = "-".to_owned();
            proof {
                reveal_strlit("-");
                assert(ex_at(self.tokens@, 9, p, Expr::Unary(op, Box::new(e)), self.pos as int));
            }
            Ok(spanned(Expr::Unary(op, Box::new(e)), span))
        } else {
            let e = self.application()?;
            proof {
                lemma_ex_lift(self.tokens@, 10, 9, p, e, self.pos as int);
            }
            Ok(e)
        }
    }

    fn application(&mut self) -> (r: Result<Expr, Diagnostic>)
        requires
            old(self).wf(),
        ensures
            final(self).wf(),
            final(self).same_input(old(self)),
            final(self).pos >= old(self).pos,
            r is Ok ==> final(self).pos > old(self).pos,
            r matches Ok(e) ==> e is Spanned,
            r matches Ok(e) ==> ex_at(old(self).tokens@, 10, old(self).pos as int, e, final(self).pos as int),
            lone_atom(old(self).tokens@, old(self).pos as int) ==> (r matches Ok(e) && atom_result(old(self).tokens@[old(self).pos as int].kind, e)
                && final(self).pos == old(self).pos + 1),
            operand_then(old(self).tokens@, old(self).pos as int) && !tg(old(self).tokens@, old(self).pos as int, Tag::Bang) && !tg(old(self).tokens@, old(self).pos as int, Tag::Minus)
                ==> (r is Ok && final(self).pos == old(self).pos as int + operand_width(old(self).tokens@, old(self).pos as int)->Some_0),
        decreases old(self).depth_spec(), old(self).remaining(), 18int,
    {
        let ghost p = self.pos as int;
        let mut expr = self.postfix()?;
        proof {
            lemma_ex_lift(self.tokens@, 11, 10, p, expr, self.pos as int);
        }
        while self.starts_postfix_atom()
            invariant
                self.wf(),
                self.same_input(old(self)),
                self.pos > old(self).pos,
                p == old(self).pos,
                expr is Spanned,
                ex_at(self.tokens@, 10, p, expr, self.pos as int),
                lone_atom(old(self).tokens@, p) ==> self.pos == p + 1 && atom_result(old(self).tokens@[p].kind, expr),
                operand_then(old(self).tokens@, p) && !tg(old(self).tokens@, p, Tag::Bang) && !tg(old(self).tokens@, p, Tag::Minus)
                    ==> self.pos == p + operand_width(old(self).tokens@, p)->Some_0,
            decreases self.remaining(),
        {
            let ghost m = self.pos as int;
            let ghost f = expr;
            let arg = self.postfix()?;
            let span = join(expr_span(&expr, self.file_id), expr_span(&arg, self.file_id));
            proof {
                assert(ex_at(self.tokens@, 10, p, f, m));
                assert(ex_at(self.tokens@, 10, p, Expr::Apply(Box::new(f), Box::new(arg)), self.pos as int));
            }
            expr = spanned(Expr::Apply(Box::new(expr), Box::new(arg)), span);
        }
        Ok(expr)
    }

    fn postfix(&mut self) -> (r: Result<Expr, Diagnostic>)
        requires
            old(self).wf(),
        ensures
            final(self).wf(),
            final(self).same_input(old(self)),
            final(self).pos >= old(self).pos,
            r is Ok ==> final(self).pos > old(self).pos,
            r matches Ok(e) ==> e is Spanned,
            r matches Ok(e) ==> ex_at(old(self).tokens@, 11, old(self).pos as int, e, final(self).pos as int),
            lone_atom(old(self).tokens@, old(self).pos as int) ==> (r matches Ok(e) && atom_result(old(self).tokens@[old(self).pos as int].kind, e)
                && final(self).pos == old(self).pos + 1),
            operand_then(old(self).tokens@, old(self).pos as int) && !tg(old(self).tokens@, old(self).pos as int, Tag::Bang) && !tg(old(self).tokens@, old(self).pos as int, Tag::Minus)
                ==> (r is Ok && final(self).pos == old(self).pos as int + operand_width(old(self).tokens@, old(self).pos as int)->Some_0),
        decreases old(self).depth_spec(), old(self).remaining(), 17int,
    {
        let ghost p = self.pos as int;
        let mut expr = self.primary()?;
        proof {
            lemma_ex_lift(self.tokens@, 12, 11, p, expr, self.pos as int);
        }
        loop
            invariant
                self.wf(),
                self.same_input(old(self)),
                self.pos > old(self).pos,
                p == old(self).pos,
                expr is Spanned,
                ex_at(self.tokens@, 11, p, expr, self.pos as int),
                lone_atom(old(self).tokens@, p) ==> self.pos == p + 1 && atom_result(old(self).tokens@[p].kind, expr),
                operand_then(old(self).tokens@, p) && !tg(old(self).tokens@, p, Tag::Bang) && !tg(old(self).tokens@, p, Tag::Minus)
                    ==> self.pos == p + operand_width(old(self).tokens@, p)->Some_0,
            decreases self.remaining(),
        {
            let ghost b = self.pos as int;
            let ghost x = expr;
            if !self.eat(Tag::Dot) {
                break;
            }
            let name = self.expect_ident("expected field or method name")?;
            let span = join(expr_span(&expr, self.file_id), self.previous_span());
            proof {
                assert(ex_at(self.tokens@, 11, p, x, b));
                assert(ex_at(self.tokens@, 11, p, Expr::Field(Box::new(x), name), self.pos as int));
            }
            expr = spanned(Expr::Field(Box::new(expr), name), span);
        }
        Ok(expr)
    }

    fn primary(&mut self) -> (r: Result<Expr, Diagnostic>)
        requires
            old(self).wf(),
        ensures
            final(self).wf(),
            final(self).same_input(old(self)),
            final(self).pos >= old(self).pos,
            r is Ok ==> final(self).pos > old(self).pos,
            r matches Ok(e) ==> e is Spanned,
            r matches Ok(e) ==> ex_at(old(self).tokens@, 12, old(self).pos as int, e, final(self).pos as int),
            lone_atom(old(self).tokens@, old(self).pos as int) ==> (r matches Ok(e) && atom_result(old(self).tokens@[old(self).pos as int].kind, e)
                && final(self).pos == old(self).pos + 1),
            tg(old(self).tokens@, old(self).pos as int, Tag::LBracket) && tg(old(self).tokens@, old(self).pos as int + 1, Tag::RBracket) ==> r is Ok && final(self).pos == old(self).pos + 2,
            tg(old(self).tokens@, old(self).pos as int, Tag::LBrace) && tg(old(self).tokens@, old(self).pos as int + 1, Tag::RBrace) ==> r is Ok && final(self).pos == old(self).pos + 2,
            tg(old(self).tokens@, old(self).pos as int, Tag::LParen) && lone_atom(old(self).tokens@, old(self).pos as int + 1) && tg(old(self).tokens@, old(self).pos as int + 2, Tag::RParen) ==> r is Ok && final(self).pos == old(self).pos + 3,
            ident_at(old(self).tokens@, old(self).pos as int, "some"@) && lone_atom(old(self).tokens@, old(self).pos as int + 1) ==> r is Ok && final(self).pos == old(self).pos + 2,
            old(self).tokens@.len() > 0 && (operand_width(old(self).tokens@, old(self).pos as int) matches Some(w) && !tg(old(self).tokens@, old(self).pos as int, Tag::Bang) && !tg(old(self).tokens@, old(self).pos as int, Tag::Minus))
                ==> (r is Ok && final(self).pos == old(self).pos as int + operand_width(old(self).tokens@, old(self).pos as int)->Some_0),
        decreases old(self).depth_spec(), old(self).remaining(), 16int,
    {
        let ghost p = self.pos as int;
        let i = self.bump();
        proof {
            if !(self.tokens@[p].kind is Eof) {
                assert(p + 1 < self.tokens@.len());
            }
            reveal_strlit("some");
            reveal_strlit("true");
            reveal_strlit("false");
            reveal_strlit("none");
            assert("some"@[0] == 's' && "true"@[0] == 't' && "false"@[0] == 'f' && "none"@[0] == 'n');
        }
        let span = self.tokens[i].span;
        let start = match &self.tokens[i].kind {
            TokenKind::Int(v) => PrimaryStart::Ready(Expr::Int(*v)),
            TokenKind::Float(text) => PrimaryStart::Ready(Expr::Float(text.clone())),
            TokenKind::Str(parts) => PrimaryStart::Str(clone_parts(parts)),
            TokenKind::Ident(name) => {
                let n = name.as_str();
                if str_eq(n, "true") {
                    PrimaryStart::Ready(Expr::Bool(true))
                } else if str_eq(n, "false") {
                    PrimaryStart::Ready(Expr::Bool(false))
                } else if str_eq(n, "none") {
                    PrimaryStart::Ready(Expr::OptNone)
                } else if str_eq(n, "some") {
                    PrimaryStart::SomeValue
                } else if is_reserved(n) {
                    let message = concat3("unexpected keyword `", n, "`");
                    PrimaryStart::Failed(Diagnostic { code: "E_PARSE_015", message, span })
                } else {
                    PrimaryStart::Ready(Expr::Var(name.clone()))
                }
            },
            TokenKind::LBracket => PrimaryStart::List,
            TokenKind::LBrace => PrimaryStart::Record,
            TokenKind::LParen => PrimaryStart::Group,
            _ => PrimaryStart::Failed(Diagnostic { code: "E_PARSE_016", message: "expected expression".to_owned(), span }),
        };
        proof {
            let t = self.tokens@;
            assert(start matches PrimaryStart::Ready(x) ==> ex_at(t, 12, p, x, p + 1) && self.pos == p + 1);
            assert(start matches PrimaryStart::Str(ps) ==> (t[p].kind matches TokenKind::Str(sp) && sp@ == ps@) && self.pos == p + 1);
            assert(start is SomeValue ==> ident_at(t, p, "some"@) && self.pos == p + 1);
            assert(start is List ==> tg(t, p, Tag::LBracket) && self.pos == p + 1);
            assert(start is Record ==> tg(t, p, Tag::LBrace) && self.pos == p + 1);
            assert(start is Group ==> tg(t, p, Tag::LParen) && self.pos == p + 1);
        }
        match start {
            PrimaryStart::Ready(e) => Ok(spanned(e, span)),
            PrimaryStart::Str(parts) => self.string_expr(i, parts, span),
            PrimaryStart::SomeValue => {
                let value = self.expr()?;
                let whole = join(span, expr_span(&value, self.file_id));
                proof {
                    assert(ex_at(self.tokens@, 12, p, Expr::OptSome(Box::new(value)), self.pos as int));
                }
                Ok(spanned(Expr::OptSome(Box::new(value)), whole))
            },
            PrimaryStart::List => self.list_expr(span),
            PrimaryStart::Record => self.record_expr(span),
            PrimaryStart::Group => {
                let e = self.expr()?;
                self.expect(Tag::RParen, "expected `)` after expression")?;
                proof {
                    lemma_ex_fall(self.tokens@, 12, p, e, self.pos as int);
                }
                Ok(e)
            },
            PrimaryStart::Failed(d) => Err(d),
        }
    }

    /// A string literal: plain text, or an interpolation whose expression
    /// parts are parsed on their own.
    fn string_expr(&self, i: usize, parts: Vec<StringPart>, span: Span) -> (r: Result<Expr, Diagnostic>)
        requires
            self.wf(),
            i < self.tokens@.len(),
            self.tokens@[i as int].kind matches TokenKind::Str(sp) && sp@ == parts@,
        ensures
            r matches Ok(e) ==> e is Spanned,
            r matches Ok(e) ==> ex_at(self.tokens@, 12, i as int, e, i + 1),
            (forall|x: int| 0 <= x < parts@.len() ==> (#[trigger] parts@[x]) is Text) ==> (r matches Ok(e)
                && (e matches Expr::Spanned(x, _) && (*x matches Expr::String(v) && plain_text(parts@) == Some(v@)))),
        decreases self.depth_spec(), self.remaining(), 31int,
    {
        let mut all_text = true;
        let mut j: usize = 0;
        while j < parts.len()
            invariant
                j <= parts@.len(),
                all_text == forall|x: int| 0 <= x < j ==> parts@[x] is Text,
            decreases parts.len() - j,
        {
            if let StringPart::Expr(_) = &parts[j] {
                all_text = false;
            }
            j = j + 1;
        }
        if all_text {
            let mut value = String::new();
            let mut k: usize = 0;
            assert(parts@.take(0) =~= Seq::<StringPart>::empty());
            while k < parts.len()
                invariant
                    k <= parts@.len(),
                    forall|x: int| 0 <= x < parts@.len() ==> parts@[x] is Text,
                    plain_text(parts@.take(k as int)) == Some(value@),
                decreases parts.len() - k,
            {
                assert(parts@.take(k + 1).drop_last() =~= parts@.take(k as int));
                if let StringPart::Text(text) = &parts[k] {
                    value.append(text.as_str());
                }
                k = k + 1;
            }
            assert(parts@.take(parts@.len() as int) =~= parts@);
            proof {
                assert(ex_at(self.tokens@, 12, i as int, Expr::String(value), i + 1));
            }
            return Ok(spanned(Expr::String(value), span));
        }
        proof {
            let x = choose|x: int| 0 <= x < parts@.len() && !(parts@[x] is Text);
            lemma_plain_text_none(parts@, x);
        }
        if self.nesting == 0 {
            return Err(Diagnostic { code: "E_PARSE_010", message: "interpolation nested too deeply".to_owned(), span });
        }
        let mut interp: Vec<StrPart> = Vec::new();
        let mut k: usize = 0;
        assert(parts@.take(0) =~= Seq::<StringPart>::empty());
        while k < parts.len()
            invariant
                k <= parts@.len(),
                self.wf(),
                self.nesting > 0,
                parts_at(parts@.take(k as int), interp@),
            decreases parts.len() - k,
        {
            let ghost before = interp@;
            match &parts[k] {
                StringPart::Text(text) => {
                    interp.push(StrPart::Text(text.clone()));
                },
                StringPart::Expr(expr_text) => {
                    let e = Parser::parse_embedded_expr(self.file_id, expr_text.as_str(), span, self.nesting - 1)?;
                    interp.push(StrPart::Expr(e));
                },
            }
            proof {
                assert(parts@.take(k + 1).drop_last() =~= parts@.take(k as int));
                assert(interp@.drop_last() =~= before);
                assert(parts@.take(k + 1).last() == parts@[k as int]);
            }
            k = k + 1;
        }
        assert(parts@.take(parts@.len() as int) =~= parts@);
        proof {
            assert(ex_at(self.tokens@, 12, i as int, Expr::Interp(interp), i + 1));
        }
        Ok(spanned(Expr::Interp(interp), span))
    }

    fn list_expr(&mut self, start: Span) -> (r: Result<Expr, Diagnostic>)
        requires
            old(self).wf(),
            old(self).pos >= 1,
            tg(old(self).tokens@, old(self).pos - 1, Tag::LBracket),
        ensures
            final(self).wf(),
            final(self).same_input(old(self)),
            final(self).pos >= old(self).pos,
            r matches Ok(e) ==> e is Spanned,
            r matches Ok(e) ==> ex_at(old(self).tokens@, 12, old(self).pos - 1, e, final(self).pos as int),
            tg(old(self).tokens@, old(self).pos as int, Tag::RBracket) ==> r is Ok && final(self).pos == old(self).pos + 1,
            lone_atom(old(self).tokens@, old(self).pos as int) && tg(old(self).tokens@, old(self).pos as int + 1, Tag::RBracket) ==> r is Ok && final(self).pos == old(self).pos + 2,
            forall|n: nat| #[trigger] atom_list(old(self).tokens@, old(self).pos as int, n) ==> r is Ok && final(self).pos == old(self).pos + 2 * n,
        decreases old(self).depth_spec(), old(self).remaining(), 31int,
    {
        let ghost s0 = self.pos as int;
        let ghost listed = exists|n: nat| #[trigger] atom_list(self.tokens@, s0, n);
        let ghost nn: nat = if listed { choose|n: nat| #[trigger] atom_list(self.tokens@, s0, n) } else { 0 };
        let mut items: Vec<Expr> = Vec::new();
        if !self.peek(Tag::RBracket) {
            loop
                invariant_except_break
                    (items@.len() == 0 && self.pos == s0)
                        || (items@.len() > 0 && tg(self.tokens@, self.pos - 1, Tag::Comma)
                            && items_body(self.tokens@, s0, items@, self.pos - 1)),
                    lone_atom(old(self).tokens@, s0) && tg(old(self).tokens@, s0 + 1, Tag::RBracket)
                        ==> items@.len() == 0 && self.pos == s0,
                    listed ==> items@.len() < nn && self.pos == s0 + 2 * items@.len()
                        && atom_list(old(self).tokens@, self.pos as int, (nn - items@.len()) as nat),
                invariant
                    self.wf(),
                    self.same_input(old(self)),
                    self.pos >= old(self).pos,
                    s0 == old(self).pos,
                    !tg(old(self).tokens@, s0, Tag::RBracket),
                    listed ==> atom_list(old(self).tokens@, s0, nn),
                    listed == exists|n: nat| #[trigger] atom_list(old(self).tokens@, s0, n),
                ensures
                    items_at(self.tokens@, s0, items@, self.pos as int),
                    lone_atom(old(self).tokens@, s0) && tg(old(self).tokens@, s0 + 1, Tag::RBracket) ==> self.pos == s0 + 1,
                    listed ==> self.pos == s0 + 2 * nn - 1 && tg(old(self).tokens@, self.pos as int, Tag::RBracket),
                decreases self.remaining(),
            {
                let ghost b = self.pos as int;
                let ghost before = items@;
                let ghost m: nat = (nn - items@.len()) as nat;
                proof {
                    if listed {
                        assert(lone_atom(old(self).tokens@, b));
                    }
                }
                let item = self.expr()?;
                items.push(item);
                proof {
                    let t = self.tokens@;
                    assert(items@.drop_last() =~= before);
                    if before.len() > 0 {
                        assert(items_body(t, s0, items@.drop_last(), b - 1));
                    }
                    assert(items_body(t, s0, items@, self.pos as int));
                    if listed {
                        assert(self.pos == b + 1);
                        if m > 1 {
                            assert(tg(t, b + 1, Tag::Comma));
                            assert(atom_list(t, b + 2, (m - 1) as nat));
                            assert(lone_atom(t, b + 2));
                        } else {
                            assert(tg(t, b + 1, Tag::RBracket));
                        }
                    }
                }
                if !self.eat(Tag::Comma) {
                    break;
                }
                if self.peek(Tag::RBracket) {
                    break;
                }
            }
        }
        let ghost e0 = self.pos as int;
        proof {
            if listed {
                assert forall|n: nat| #[trigger] atom_list(old(self).tokens@, s0, n) implies n == nn by {
                    lemma_atom_list_unique(old(self).tokens@, s0, n, nn);
                }
            }
        }
        proof {
            assert(items_at(self.tokens@, s0, items@, e0));
        }
        let end = self.expect(Tag::RBracket, "expected `]` after list")?;
        proof {
            assert(tg(self.tokens@, e0, Tag::RBracket));
            assert(ex_at(self.tokens@, 12, s0 - 1, Expr::List(items), self.pos as int));
        }
        Ok(spanned(Expr::List(items), join(start, end)))
    }

    fn record_expr(&mut self, start: Span) -> (r: Result<Expr, Diagnostic>)
        requires
            old(self).wf(),
            old(self).pos >= 1,
            tg(old(self).tokens@, old(self).pos - 1, Tag::LBrace),
        ensures
            final(self).wf(),
            final(self).same_input(old(self)),
            final(self).pos >= old(self).pos,
            r matches Ok(e) ==> e is Spanned,
            r matches Ok(e) ==> ex_at(old(self).tokens@, 12, old(self).pos - 1, e, final(self).pos as int),
            tg(old(self).tokens@, old(self).pos as int, Tag::RBrace) ==> r is Ok && final(self).pos == old(self).pos + 1,
            field_name_at(old(self).tokens@, old(self).pos as int) && tg(old(self).tokens@, old(self).pos as int + 1, Tag::Eq) && lone_atom(old(self).tokens@, old(self).pos as int + 2) && tg(old(self).tokens@, old(self).pos as int + 3, Tag::RBrace)
                ==> r is Ok && final(self).pos == old(self).pos + 4,
            forall|n: nat| #[trigger] atom_record(old(self).tokens@, old(self).pos as int, n) ==> r is Ok && final(self).pos == old(self).pos + 4 * n,
        decreases old(self).depth_spec(), old(self).remaining(), 31int,
    {
        let ghost s0 = self.pos as int;
        let ghost listed = exists|n: nat| #[trigger] atom_record(self.tokens@, s0, n);
        let ghost nn: nat = if listed { choose|n: nat| #[trigger] atom_record(self.tokens@, s0, n) } else { 0 };
        let mut fields: Vec<(String, Expr)> = Vec::new();
        if !self.peek(Tag::RBrace) {
            loop
                invariant_except_break
                    (fields@.len() == 0 && self.pos == s0)
                        || (fields@.len() > 0 && tg(self.tokens@, self.pos - 1, Tag::Comma)
                            && efields_body(self.tokens@, s0, fields@, self.pos - 1)),
                    field_name_at(old(self).tokens@, s0) && tg(old(self).tokens@, s0 + 1, Tag::Eq)
                        && lone_atom(old(self).tokens@, s0 + 2) && tg(old(self).tokens@, s0 + 3, Tag::RBrace)
                        ==> fields@.len() == 0 && self.pos == s0,
                    listed ==> fields@.len() < nn && self.pos == s0 + 4 * fields@.len()
                        && atom_fields(old(self).tokens@, self.pos as int, (nn - fields@.len()) as nat),
                invariant
                    self.wf(),
                    self.same_input(old(self)),
                    self.pos >= old(self).pos,
                    s0 == old(self).pos,
                    distinct_names(field_names(fields@)),
                    !tg(old(self).tokens@, s0, Tag::RBrace),
                    listed ==> atom_record(old(self).tokens@, s0, nn),
                    listed == exists|n: nat| #[trigger] atom_record(old(self).tokens@, s0, n),
                    listed ==> fields@.len() <= nn,
                    listed ==> forall|i: int| 0 <= i < fields@.len() ==> #[trigger] fields@[i].0@ == field_word(old(self).tokens@, s0, i),
                ensures
                    efields_at(self.tokens@, s0, fields@, self.pos as int),
                    field_name_at(old(self).tokens@, s0) && tg(old(self).tokens@, s0 + 1, Tag::Eq)
                        && lone_atom(old(self).tokens@, s0 + 2) && tg(old(self).tokens@, s0 + 3, Tag::RBrace)
                        ==> self.pos == s0 + 3,
                    listed ==> self.pos == s0 + 4 * nn - 1 && tg(old(self).tokens@, self.pos as int, Tag::RBrace),
                decreases self.remaining(),
            {
                let ghost b = self.pos as int;
                let ghost before = fields@;
                let ghost m: nat = (nn - fields@.len()) as nat;
                let ghost k: int = fields@.len() as int;
                proof {
                    if listed {
                        assert(field_name_at(old(self).tokens@, b));
                        assert(b == s0 + 4 * k);
                        assert forall|j: int| 0 <= j < fields@.len() implies #[trigger] fields@[j].0@ != field_word(old(self).tokens@, s0, k) by {
                            assert(fields@[j].0@ == field_word(old(self).tokens@, s0, j));
                        }
                    }
                }
                let name_span = self.tokens[self.pos].span;
                let name = self.expect_ident("expected record field name")?;
                proof {
                    if listed {
                        assert(name@ == field_word(old(self).tokens@, s0, k));
                    }
                }
                if has_field(&fields, &name) {
                    return Err(duplicate_field(&name, name_span));
                }
                self.expect(Tag::Eq, "expected `=` after record field name")?;
                proof {
                    if listed {
                        assert(lone_atom(old(self).tokens@, b + 2));
                    }
                }
                let value = self.expr()?;
                fields.push((name, value));
                proof {
                    let t = self.tokens@;
                    assert(fields@.drop_last() =~= before);
                    assert(efield_at(t, b, fields@.last(), self.pos as int));
                    if before.len() > 0 {
                        assert(efields_body(t, s0, fields@.drop_last(), b - 1));
                    }
                    assert(efields_body(t, s0, fields@, self.pos as int));
                    lemma_push_distinct(before, fields@.last());
                    if listed {
                        assert(self.pos == b + 3);
                        assert forall|i: int| 0 <= i < fields@.len() implies #[trigger] fields@[i].0@ == field_word(old(self).tokens@, s0, i) by {
                            if i < k {
                                assert(fields@[i] == before[i]);
                            }
                        }
                        if m > 1 {
                            assert(tg(t, b + 3, Tag::Comma));
                            assert(atom_fields(t, b + 4, (m - 1) as nat));
                            assert(field_name_at(t, b + 4));
                        } else {
                            assert(tg(t, b + 3, Tag::RBrace));
                        }
                    }
                }
                if !self.eat(Tag::Comma) {
                    break;
                }
                if self.peek(Tag::RBrace) {
                    break;
                }
            }
        }
        let ghost e0 = self.pos as int;
        proof {
            if listed {
                assert forall|n: nat| #[trigger] atom_record(old(self).tokens@, s0, n) implies n == nn by {
                    lemma_atom_fields_unique(old(self).tokens@, s0, n, nn);
                }
            }
        }
        proof {
            assert(efields_at(self.tokens@, s0, fields@, e0));
        }
        let end = self.expect(Tag::RBrace, "expected `}` after record")?;
        proof {
            assert(tg(self.tokens@, e0, Tag::RBrace));
            assert(ex_at(self.tokens@, 12, s0 - 1, Expr::Record(fields), self.pos as int));
        }
        Ok(spanned(Expr::Record(fields), join(start, end)))
    }

    /// Whether the current token can start an application argument.
    fn starts_postfix_atom(&self) -> (b: bool)
        requires
            self.wf(),
        ensures
            b ==> !(self.tokens@[self.pos as int].kind is Eof),
            b == starts_atom(self.tokens@[self.pos as int].kind),
    {
        match &self.tokens[self.pos].kind {
            TokenKind::Int(_) | TokenKind::Float(_) | TokenKind::Str(_) | TokenKind::LParen
            | TokenKind::LBracket | TokenKind::LBrace => true,
            TokenKind::Ident(name) => {
                let n = name.as_str();
                !(str_eq(n, "in") || str_eq(n, "then") || str_eq(n, "else") || str_eq(n, "type")
                    || str_eq(n, "export") || str_eq(n, "import"))
            },
            _ => false,
        }
    }
}

/// Whether a field of that name was parsed already.
fn has_field<T>(fields: &Vec<(String, T)>, name: &String) -> (b: bool)
    ensures
        b == exists|j: int| 0 <= j < fields@.len() && #[trigger] fields@[j].0@ == name@,
{
    let mut i: usize = 0;
    while i < fields.len()
        invariant
            i <= fields@.len(),
            forall|j: int| 0 <= j < i ==> fields@[j].0@ != name@,
        decreases fields.len() - i,
    {
        if str_eq(fields[i].0.as_str(), name.as_str()) {
            return true;
        }
        i = i + 1;
    }
    false
}

/// The diagnostic for a field written twice, on its second name.
fn duplicate_field(name: &String, span: Span) -> (d: Diagnostic)
    ensures
        d.code@ == "E_RECORD_003"@,
        d.span == span,
{
    let message = crate::text::concat3("duplicate field `", name.as_str(), "`");
    Diagnostic { code: "E_RECORD_003", message, span }
}

/// Parses a source file. Text that does not lex is refused with the
/// lexer's diagnostic.
pub fn parse(input: &str) -> (r: Result<FileAst, Diagnostic>)
    ensures
        r is Ok ==> lex_from(input.spec_bytes(), 0) is Ok,
        chain_file(lex_from(input.spec_bytes(), 0)) ==> (r matches Ok(f) && f.decls@.len() == 0 && f.output is Some),
        r matches Ok(f) ==> exists|ts: Seq<Token>| #[trigger] tokens_view(ts) == lex_from(input.spec_bytes(), 0)->Ok_0
            && file_at(ts, f),
        lex_from(input.spec_bytes(), 0) matches Err(e) ==> r matches Err(d) && diag_view(d) == e,
        no_tokens(lex_from(input.spec_bytes(), 0)) ==> (r matches Ok(f) && f.decls@.len() == 0 && f.output is None),
        lone_int(lex_from(input.spec_bytes(), 0)) matches Some(v) ==> (r matches Ok(f) && f.decls@.len() == 0
            && (f.output matches Some(e) && (e matches Expr::Spanned(x, _) && *x == Expr::Int(v)))),
        lone_type_decl(lex_from(input.spec_bytes(), 0)) matches Some(nt) ==> (r matches Ok(f) && f.decls@.len() == 1
            && f.output is None && (f.decls@[0] matches Decl::Type { name, ty, .. } && name@ == nt.0 && named_type_result(nt.1, ty))),
        lone_let_int(lex_from(input.spec_bytes(), 0)) matches Some(nv) ==> (r matches Ok(f) && f.decls@.len() == 1
            && f.output is None && (f.decls@[0] matches Decl::Let { name, annotation, expr, .. } && name@ == nv.0
            && annotation is None && (expr matches Expr::Spanned(x, _) && *x == Expr::Int(nv.1)))),
        forall|n: nat, o: bool| #[trigger] let_lits_file(lex_from(input.spec_bytes(), 0), n, o) ==> (r matches Ok(f) && f.decls@.len() == n
            && (forall|k: int| 0 <= k < n ==> #[trigger] let_lit_decl(lex_from(input.spec_bytes(), 0)->Ok_0, 5 * k, f.decls@[k]))
            && (if o {
                f.output matches Some(e) && (e matches Expr::Spanned(x, _)
                    && lit_expr(lex_from(input.spec_bytes(), 0)->Ok_0[5 * n as int].kind, *x))
            } else {
                f.output is None
            })),
{
    Parser::parse_file(0, input)
}

} // verus!

//! The grammar of the language, as relations between token ranges and
//! syntax trees: `ex_at(t, l, p, e, q)` holds when the tokens `t[p..q]`
//! derive the expression `e` at precedence level `l`. Spans are not part
//! of the relations: a `Spanned` node derives what its inner node derives.
//!
//! Expression levels, loosest first: 0 `let`, 1 ascription `e : T`,
//! 2 lambdas and `if`, 3 `||`, 4 `&&`, 5 `== !=`, 6 `< <= > >=`,
//! 7 `+ - ++`, 8 `* / %`, 9 unary `! -`, 10 application, 11 field access,
//! 12 atoms and parenthesized expressions. Type levels: 0 functions,
//! 1 options `T?`, 2 atoms.

use vstd::prelude::*;
use vstd::utf8::encode_utf8;

use crate::syntax::lexer::{
    kind_view, lex_from, part_view, parts_view, tokens_view, SpecKind, SpecLexError, SpecPart, SpecToken, StringPart, Token, TokenKind,
};
use crate::syntax::parser::{reserved, tag_of, upper_name, Tag};
use crate::syntax::surface::{Decl, Expr, FileAst, StrPart, Type};

verus! {

/// Token `i` has tag `g`.
pub open spec fn tg(t: Seq<Token>, i: int, g: Tag) -> bool {
    0 <= i < t.len() && tag_of(t[i].kind) == g
}

/// Token `i` is the identifier `w`.
pub open spec fn ident_at(t: Seq<Token>, i: int, w: Seq<char>) -> bool {
    0 <= i < t.len() && (t[i].kind matches TokenKind::Ident(n) && n@ == w)
}

/// A name that may label a field or an import: not reserved, or capitalized.
pub open spec fn field_name(n: Seq<char>) -> bool {
    !reserved(n) || upper_name(n)
}

/// A name that may be bound to a value: lowercase and not reserved.
pub open spec fn value_name(n: Seq<char>) -> bool {
    !reserved(n) && !upper_name(n)
}

/// The text of string parts, when none is interpolated.
pub open spec fn plain_text(parts: Seq<StringPart>) -> Option<Seq<char>>
    decreases parts.len(),
{
    if parts.len() == 0 {
        Some(Seq::empty())
    } else {
        match (plain_text(parts.drop_last()), parts.last()) {
            (Some(s), StringPart::Text(x)) => Some(s + x@),
            _ => None,
        }
    }
}

/// Token `i` is a string literal without interpolation, with text `s`.
pub open spec fn str_lit_at(t: Seq<Token>, i: int, s: Seq<char>) -> bool {
    0 <= i < t.len() && (t[i].kind matches TokenKind::Str(parts) && plain_text(parts@) == Some(s))
}

/// The binary operator a token denotes at expression level `l`.
pub open spec fn binary_op(l: nat, g: Tag) -> Option<Seq<char>> {
    if l == 3 {
        if g == Tag::OrOr { Some("||"@) } else { None }
    } else if l == 4 {
        if g == Tag::AndAnd { Some("&&"@) } else { None }
    } else if l == 5 {
        if g == Tag::EqEq { Some("=="@) } else if g == Tag::BangEq { Some("!="@) } else { None }
    } else if l == 6 {
        if g == Tag::Lt { Some("<"@) } else if g == Tag::LtEq { Some("<="@) } else if g == Tag::Gt { Some(">"@) }
        else if g == Tag::GtEq { Some(">="@) } else { None }
    } else if l == 7 {
        if g == Tag::Plus { Some("+"@) } else if g == Tag::Minus { Some("-"@) } else if g == Tag::PlusPlus { Some("++"@) }
        else { None }
    } else if l == 8 {
        if g == Tag::Star { Some("*"@) } else if g == Tag::Slash { Some("/"@) } else if g == Tag::Percent { Some("%"@) }
        else { None }
    } else {
        None
    }
}

/// The expression level of the binary operator a token tag denotes, or 0
/// for a tag that denotes none.
pub open spec fn op_level(g: Tag) -> nat {
    if binary_op(3, g) is Some {
        3
    } else if binary_op(4, g) is Some {
        4
    } else if binary_op(5, g) is Some {
        5
    } else if binary_op(6, g) is Some {
        6
    } else if binary_op(7, g) is Some {
        7
    } else if binary_op(8, g) is Some {
        8
    } else {
        0
    }
}

/// A token that ends an expression denotes no binary operator.
pub proof fn lemma_closes_no_op(k: TokenKind)
    requires
        closes_expr(k),
    ensures
        op_level(tag_of(k)) == 0,
        forall|l: nat| #[trigger] binary_op(l, tag_of(k)) is None,
{
}

/// An operator tag denotes an operator at its level and at no other.
pub proof fn lemma_op_level(g: Tag, l: nat)
    ensures
        binary_op(l, g) is Some <==> (3 <= l <= 8 && op_level(g) == l),
{
}

/// The number of tokens of the operand at `p` in the language of operator
/// expressions: an atom, `-` or `!` before an operand, or a parenthesised
/// operator expression.
pub open spec fn operand_width(t: Seq<Token>, p: int) -> Option<nat>
    decreases t.len() - p, 0int,
{
    if !(0 <= p < t.len()) {
        None
    } else if atom_token(t[p].kind) {
        Some(1)
    } else if tg(t, p, Tag::Bang) || tg(t, p, Tag::Minus) {
        match operand_width(t, p + 1) {
            Some(w) => Some(w + 1),
            None => None,
        }
    } else if tg(t, p, Tag::LParen) {
        match chain_width(t, p + 1) {
            Some(w) => if tg(t, p + 1 + w, Tag::RParen) { Some(w + 2) } else { None },
            None => None,
        }
    } else {
        None
    }
}

/// The number of tokens of the operator expression at `p`: operands joined
/// by binary operators of any levels, ended by a token that no expression
/// continues through.
pub open spec fn chain_width(t: Seq<Token>, p: int) -> Option<nat>
    decreases t.len() - p, 1int,
{
    if !(0 <= p < t.len()) {
        None
    } else {
        match operand_width(t, p) {
            Some(w) => if !(w >= 1 && p + w < t.len()) {
                None
            } else if closes_expr(t[p + w].kind) {
                Some(w)
            } else if op_level(tag_of(t[p + w].kind)) >= 3 {
                match chain_width(t, p + w + 1) {
                    Some(v) => Some(w + 1 + v),
                    None => None,
                }
            } else {
                None
            },
            None => None,
        }
    }
}

/// Where parsing at expression level `l` stops in the operator expression
/// at `p`: after the last operand before an operator of a lower level, or
/// at the end.
pub open spec fn chain_stop(t: Seq<Token>, p: int, l: nat) -> int
    decreases t.len() - p,
{
    match operand_width(t, p) {
        Some(w) => if 0 <= p && w >= 1 && p + w < t.len() && op_level(tag_of(t[p + w].kind)) >= l && l >= 3 {
            chain_stop(t, p + w + 1, l)
        } else {
            p + w
        },
        None => p,
    }
}

/// The operand at `p` is followed by a binary operator or by a token that
/// ends the expression.
pub open spec fn operand_then(t: Seq<Token>, p: int) -> bool {
    operand_width(t, p) matches Some(w) && p + w < t.len()
        && (closes_expr(t[p + w].kind) || op_level(tag_of(t[p + w].kind)) >= 3)
}

/// An operator expression starts with an operand followed by an operator
/// or an end; at level 9 and above parsing stops after that operand.
pub proof fn lemma_chain_first(t: Seq<Token>, q: int)
    requires
        chain_width(t, q) is Some,
    ensures
        operand_then(t, q),
        chain_stop(t, q, 9) == q + operand_width(t, q)->Some_0,
        1 <= operand_width(t, q)->Some_0,
{
}

/// Parsing at level `l + 1` stops at the end or at an operator of level at
/// most `l`; parsing at level `l` stops at the same place, unless that
/// operator is of level `l`, after which it goes on with the expression
/// that follows it.
pub proof fn lemma_chain_stop_step(t: Seq<Token>, q: int, l: nat)
    requires
        chain_width(t, q) is Some,
        3 <= l <= 8,
    ensures
        q < chain_stop(t, q, l + 1) < t.len(),
        closes_expr(t[chain_stop(t, q, l + 1)].kind) || (3 <= op_level(tag_of(t[chain_stop(t, q, l + 1)].kind)) <= l
            && chain_width(t, chain_stop(t, q, l + 1) + 1) is Some),
        chain_stop(t, q, l) == if !closes_expr(t[chain_stop(t, q, l + 1)].kind)
            && op_level(tag_of(t[chain_stop(t, q, l + 1)].kind)) == l {
            chain_stop(t, chain_stop(t, q, l + 1) + 1, l)
        } else {
            chain_stop(t, q, l + 1)
        },
    decreases t.len() - q,
{
    let w = operand_width(t, q)->Some_0;
    if !closes_expr(t[q + w].kind) {
        if op_level(tag_of(t[q + w].kind)) >= l + 1 {
            lemma_chain_stop_step(t, q + w + 1, l);
        }
    } else {
        lemma_closes_no_op(t[q + w].kind);
    }
}

/// At the lowest operator level the whole expression is parsed.
pub proof fn lemma_chain_stop_whole(t: Seq<Token>, q: int)
    requires
        chain_width(t, q) is Some,
    ensures
        chain_stop(t, q, 3) == q + chain_width(t, q)->Some_0,
        closes_expr(t[q + chain_width(t, q)->Some_0].kind),
        chain_width(t, q)->Some_0 >= 1,
    decreases t.len() - q,
{
    let w = operand_width(t, q)->Some_0;
    if closes_expr(t[q + w].kind) {
        lemma_closes_no_op(t[q + w].kind);
    } else {
        lemma_chain_stop_whole(t, q + w + 1);
    }
}

/// Scanning for the `)` of a group passes over an operand or an operator
/// expression with the depth it started at.
pub proof fn lemma_group_scan(t: Seq<Token>, q: int, d: nat)
    requires
        d >= 1,
        operand_width(t, q) is Some || chain_width(t, q) is Some,
    ensures
        operand_width(t, q) matches Some(w) ==> crate::syntax::parser::arrow_after_group(t, q, d)
            == crate::syntax::parser::arrow_after_group(t, q + w, d),
        chain_width(t, q) matches Some(w) ==> crate::syntax::parser::arrow_after_group(t, q, d)
            == crate::syntax::parser::arrow_after_group(t, q + w, d),
    decreases t.len() - q, 2int,
{
    lemma_operand_scan(t, q, d);
    if chain_width(t, q) is Some {
        lemma_chain_scan(t, q, d);
    }
}

proof fn lemma_operand_scan(t: Seq<Token>, q: int, d: nat)
    requires
        d >= 1,
    ensures
        operand_width(t, q) matches Some(w) ==> crate::syntax::parser::arrow_after_group(t, q, d)
            == crate::syntax::parser::arrow_after_group(t, q + w, d),
    decreases t.len() - q, 0int,
{
    if operand_width(t, q) is Some {
        if atom_token(t[q].kind) {
        } else if tg(t, q, Tag::Bang) || tg(t, q, Tag::Minus) {
            lemma_operand_scan(t, q + 1, d);
        } else {
            lemma_chain_scan(t, q + 1, d + 1);
        }
    }
}

proof fn lemma_chain_scan(t: Seq<Token>, q: int, d: nat)
    requires
        d >= 1,
    ensures
        chain_width(t, q) matches Some(w) ==> crate::syntax::parser::arrow_after_group(t, q, d)
            == crate::syntax::parser::arrow_after_group(t, q + w, d),
    decreases t.len() - q, 1int,
{
    if chain_width(t, q) is Some {
        lemma_operand_scan(t, q, d);
        let w = operand_width(t, q)->Some_0;
        if !closes_expr(t[q + w].kind) {
            lemma_chain_scan(t, q + w + 1, d);
        }
    }
}

/// The level of the binary operator a token model denotes, or 0.
pub open spec fn op_kind_level(k: SpecKind) -> nat {
    match k {
        SpecKind::OrOr => 3,
        SpecKind::AndAnd => 4,
        SpecKind::EqEq | SpecKind::BangEq => 5,
        SpecKind::Lt | SpecKind::LtEq | SpecKind::Gt | SpecKind::GtEq => 6,
        SpecKind::Plus | SpecKind::Minus | SpecKind::PlusPlus => 7,
        SpecKind::Star | SpecKind::Slash | SpecKind::Percent => 8,
        _ => 0,
    }
}

/// A token model that no expression continues through.
pub open spec fn closes_kind(k: SpecKind) -> bool {
    match k {
        SpecKind::Semi | SpecKind::Comma | SpecKind::RParen | SpecKind::RBracket | SpecKind::RBrace | SpecKind::Eof => true,
        SpecKind::Ident(n) => n == "then"@ || n == "else"@ || n == "in"@,
        _ => false,
    }
}

/// `operand_width` on token models.
pub open spec fn operand_width_model(st: Seq<SpecToken>, p: int) -> Option<nat>
    decreases st.len() - p, 0int,
{
    if !(0 <= p < st.len()) {
        None
    } else if atom_kind(st[p].kind) {
        Some(1)
    } else if st[p].kind is Bang || st[p].kind is Minus {
        match operand_width_model(st, p + 1) {
            Some(w) => Some(w + 1),
            None => None,
        }
    } else if st[p].kind is LParen {
        match chain_width_model(st, p + 1) {
            Some(w) => if 0 <= p + 1 + w < st.len() && st[p + 1 + w].kind is RParen { Some(w + 2) } else { None },
            None => None,
        }
    } else {
        None
    }
}

/// `chain_width` on token models.
pub open spec fn chain_width_model(st: Seq<SpecToken>, p: int) -> Option<nat>
    decreases st.len() - p, 1int,
{
    if !(0 <= p < st.len()) {
        None
    } else {
        match operand_width_model(st, p) {
            Some(w) => if !(w >= 1 && p + w < st.len()) {
                None
            } else if closes_kind(st[p + w].kind) {
                Some(w)
            } else if op_kind_level(st[p + w].kind) >= 3 {
                match chain_width_model(st, p + w + 1) {
                    Some(v) => Some(w + 1 + v),
                    None => None,
                }
            } else {
                None
            },
            None => None,
        }
    }
}

/// A source whose tokens are one operator expression (operands are atoms,
/// `-` or `!` before an operand, and parenthesised operator expressions),
/// then the end of input.
pub open spec fn chain_file(lexed: Result<Seq<SpecToken>, SpecLexError>) -> bool {
    lexed matches Ok(st) && (chain_width_model(st, 0) matches Some(v) && v + 1 == st.len() && st[v as int].kind is Eof)
}

/// The model of a token kind decides what the expression grammar reads of it.
pub proof fn lemma_kind_facts(k: TokenKind)
    ensures
        closes_kind(kind_view(k)) == closes_expr(k),
        op_kind_level(kind_view(k)) == op_level(tag_of(k)),
        (kind_view(k) is Bang) == (tag_of(k) == Tag::Bang),
        (kind_view(k) is Minus) == (tag_of(k) == Tag::Minus),
        (kind_view(k) is LParen) == (tag_of(k) == Tag::LParen),
        (kind_view(k) is RParen) == (tag_of(k) == Tag::RParen),
        (kind_view(k) is Eof) == (k is Eof),
        atom_kind(kind_view(k)) == atom_token(k),
{
    lemma_atom_kind(k);
}

/// The widths agree on tokens and their models.
pub proof fn lemma_width_view(ts: Seq<Token>, p: int)
    ensures
        operand_width_model(tokens_view(ts), p) == operand_width(ts, p),
        chain_width_model(tokens_view(ts), p) == chain_width(ts, p),
    decreases ts.len() - p, 2int,
{
    lemma_operand_view(ts, p);
    lemma_chain_view_width(ts, p);
}

proof fn lemma_operand_view(ts: Seq<Token>, p: int)
    ensures
        operand_width_model(tokens_view(ts), p) == operand_width(ts, p),
    decreases ts.len() - p, 0int,
{
    let st = tokens_view(ts);
    if 0 <= p < ts.len() {
        assert(st[p] == crate::syntax::lexer::token_view(ts[p]));
        lemma_kind_facts(ts[p].kind);
        lemma_operand_view(ts, p + 1);
        lemma_chain_view_width(ts, p + 1);
        if let Some(w) = chain_width(ts, p + 1) {
            if 0 <= p + 1 + w < ts.len() {
                assert(st[p + 1 + w] == crate::syntax::lexer::token_view(ts[p + 1 + w]));
                lemma_kind_facts(ts[p + 1 + w].kind);
            }
        }
    }
}

proof fn lemma_chain_view_width(ts: Seq<Token>, p: int)
    ensures
        chain_width_model(tokens_view(ts), p) == chain_width(ts, p),
    decreases ts.len() - p, 1int,
{
    let st = tokens_view(ts);
    if 0 <= p < ts.len() {
        lemma_operand_view(ts, p);
        if let Some(w) = operand_width(ts, p) {
            if w >= 1 && p + w < ts.len() {
                assert(st[p + w] == crate::syntax::lexer::token_view(ts[p + w]));
                lemma_kind_facts(ts[p + w].kind);
                lemma_chain_view_width(ts, p + w + 1);
            }
        }
    }
}

/// A token that can start an application argument.
pub open spec fn starts_atom(k: TokenKind) -> bool {
    match k {
        TokenKind::Int(_) | TokenKind::Float(_) | TokenKind::Str(_) | TokenKind::LParen | TokenKind::LBracket
        | TokenKind::LBrace => true,
        TokenKind::Ident(n) => !(n@ == "in"@ || n@ == "then"@ || n@ == "else"@ || n@ == "type"@ || n@ == "export"@
            || n@ == "import"@),
        _ => false,
    }
}

/// A token that is an expression by itself: a number, a string literal
/// without interpolation, `true`, `false`, `none`, or a name that is not
/// reserved.
pub open spec fn atom_token(k: TokenKind) -> bool {
    match k {
        TokenKind::Int(_) | TokenKind::Float(_) => true,
        TokenKind::Str(parts) => forall|x: int| 0 <= x < parts@.len() ==> (#[trigger] parts@[x]) is Text,
        TokenKind::Ident(n) => n@ == "true"@ || n@ == "false"@ || n@ == "none"@ || !reserved(n@),
        _ => false,
    }
}

/// `e` is what the atom token `k` stands for, inside the span the parser
/// gives it.
pub open spec fn atom_result(k: TokenKind, e: Expr) -> bool {
    match e {
        Expr::Spanned(x, _) => match k {
            TokenKind::Int(v) => *x == Expr::Int(v),
            TokenKind::Float(text) => *x matches Expr::Float(u) && u@ == text@,
            TokenKind::Str(parts) => *x matches Expr::String(s) && plain_text(parts@) == Some(s@),
            TokenKind::Ident(n) => if n@ == "true"@ {
                *x == Expr::Bool(true)
            } else if n@ == "false"@ {
                *x == Expr::Bool(false)
            } else if n@ == "none"@ {
                *x == Expr::OptNone
            } else {
                *x matches Expr::Var(m) && m@ == n@
            },
            _ => false,
        },
        _ => false,
    }
}

/// `t` is the type the name `n` stands for, inside the span the parser
/// gives it: a built-in type for `Int`, `Float`, `Bool` and `String`, an
/// alias for any other name.
pub open spec fn named_type_result(n: Seq<char>, t: Type) -> bool {
    match t {
        Type::Spanned(x, _) => if n == "Int"@ {
            *x == Type::Int
        } else if n == "Float"@ {
            *x == Type::Float
        } else if n == "Bool"@ {
            *x == Type::Bool
        } else if n == "String"@ {
            *x == Type::String
        } else {
            *x matches Type::Alias(m) && m@ == n
        },
        _ => false,
    }
}

/// `t` is the type the name token `k` stands for.
pub open spec fn type_result(k: TokenKind, t: Type) -> bool {
    k matches TokenKind::Ident(n) && named_type_result(n@, t)
}

/// `d` is the declaration `type N = T;` at `p` stands for.
pub open spec fn type_decl_result(t: Seq<Token>, p: int, d: Decl) -> bool {
    match d {
        Decl::Type { name, ty, .. } => (t[p + 1].kind matches TokenKind::Ident(n) && name@ == n@) && type_result(t[p + 3].kind, ty),
        _ => false,
    }
}

/// `d` is the declaration `let x = a;` at `p` stands for, `a` an atom.
pub open spec fn let_decl_result(t: Seq<Token>, p: int, d: Decl) -> bool {
    match d {
        Decl::Let { name, annotation, expr, .. } => (t[p + 1].kind matches TokenKind::Ident(n) && name@ == n@)
            && annotation is None && atom_result(t[p + 3].kind, expr),
        _ => false,
    }
}

/// A token that no expression continues through: `;`, `,`, a closing
/// bracket, the keywords `then`, `else` and `in`, or the end of input.
pub open spec fn closes_expr(k: TokenKind) -> bool {
    match k {
        TokenKind::Semi | TokenKind::Comma | TokenKind::RParen | TokenKind::RBracket | TokenKind::RBrace
        | TokenKind::Eof => true,
        TokenKind::Ident(n) => n@ == "then"@ || n@ == "else"@ || n@ == "in"@,
        _ => false,
    }
}

/// Token `p` is an atom and the token after it ends the expression.
pub open spec fn lone_atom(t: Seq<Token>, p: int) -> bool {
    0 <= p && p + 1 < t.len() && atom_token(t[p].kind) && closes_expr(t[p + 1].kind)
}

/// From token `p` on: `n` atoms, each a lone atom, separated by commas and
/// closed by `]`.
pub open spec fn atom_list(t: Seq<Token>, p: int, n: nat) -> bool
    decreases n,
{
    n > 0 && lone_atom(t, p) && if n == 1 {
        tg(t, p + 1, Tag::RBracket)
    } else {
        tg(t, p + 1, Tag::Comma) && atom_list(t, p + 2, (n - 1) as nat)
    }
}

/// The word of identifier token `p + 4 * k`: the name of the `k`-th field
/// of a record literal whose fields start at `p` and take four tokens each.
pub open spec fn field_word(t: Seq<Token>, p: int, k: int) -> Seq<char> {
    match t[p + 4 * k].kind {
        TokenKind::Ident(n) => n@,
        _ => Seq::empty(),
    }
}

/// From token `p` on: `n` fields `name = atom`, separated by commas and
/// closed by `}`.
pub open spec fn atom_fields(t: Seq<Token>, p: int, n: nat) -> bool
    decreases n,
{
    n > 0 && field_name_at(t, p) && tg(t, p + 1, Tag::Eq) && lone_atom(t, p + 2) && if n == 1 {
        tg(t, p + 3, Tag::RBrace)
    } else {
        tg(t, p + 3, Tag::Comma) && atom_fields(t, p + 4, (n - 1) as nat)
    }
}

/// A record literal of `n` fields `name = atom` from token `p` on, closed
/// by `}`, whose field names are all different.
pub open spec fn atom_record(t: Seq<Token>, p: int, n: nat) -> bool {
    &&& atom_fields(t, p, n)
    &&& forall|i: int, j: int| 0 <= i < j < n ==> #[trigger] field_word(t, p, i) != #[trigger] field_word(t, p, j)
}

/// The fields of a record closed by `}` are counted by its tokens alone.
pub proof fn lemma_atom_fields_unique(t: Seq<Token>, p: int, n1: nat, n2: nat)
    requires
        atom_fields(t, p, n1),
        atom_fields(t, p, n2),
    ensures
        n1 == n2,
    decreases n1,
{
    if n1 > 1 && n2 > 1 {
        lemma_atom_fields_unique(t, p + 4, (n1 - 1) as nat, (n2 - 1) as nat);
    }
}

/// The atoms of a list closed by `]` are counted by its tokens alone.
pub proof fn lemma_atom_list_unique(t: Seq<Token>, p: int, n1: nat, n2: nat)
    requires
        atom_list(t, p, n1),
        atom_list(t, p, n2),
    ensures
        n1 == n2,
    decreases n1,
{
    if n1 > 1 && n2 > 1 {
        lemma_atom_list_unique(t, p + 2, (n1 - 1) as nat, (n2 - 1) as nat);
    }
}

/// Token `p` is a type name (`Int`, `Float`, `Bool`, `String` or another
/// capitalized name) and the token after it is neither `?` nor `->`, so
/// the type ends there.
pub open spec fn lone_type(t: Seq<Token>, p: int) -> bool {
    &&& 0 <= p && p + 1 < t.len()
    &&& t[p].kind matches TokenKind::Ident(n) && upper_name(n@)
    &&& !(t[p + 1].kind is Question)
    &&& !(t[p + 1].kind is Arrow)
}

/// `atom_token` on the model of a token kind.
pub open spec fn atom_kind(k: SpecKind) -> bool {
    match k {
        SpecKind::Int(_) | SpecKind::Float(_) => true,
        SpecKind::Str(parts) => forall|x: int| 0 <= x < parts.len() ==> (#[trigger] parts[x]) is Text,
        SpecKind::Ident(n) => n == "true"@ || n == "false"@ || n == "none"@ || !reserved(n),
        _ => false,
    }
}

/// A token is an atom exactly when its model is.
pub proof fn lemma_atom_kind(k: TokenKind)
    ensures
        atom_token(k) == atom_kind(kind_view(k)),
{
    if let TokenKind::Str(parts) = k {
        let v = parts_view(parts@);
        assert forall|x: int| 0 <= x < parts@.len() implies ((#[trigger] parts@[x]) is Text <==> v[x] is Text) by {
            assert(v[x] == part_view(parts@[x]));
        }
        if atom_kind(kind_view(k)) {
            assert forall|x: int| 0 <= x < parts@.len() implies (#[trigger] parts@[x]) is Text by {
                assert(v[x] is Text);
            }
        }
        if atom_token(k) {
            assert forall|x: int| 0 <= x < v.len() implies (#[trigger] v[x]) is Text by {
                assert(parts@[x] is Text);
            }
        }
    }
}

/// The number a source consists of, when its tokens are one integer
/// literal and the end of input.
pub open spec fn lone_int(lexed: Result<Seq<SpecToken>, SpecLexError>) -> Option<i64> {
    match lexed {
        Ok(st) => if st.len() == 2 && st[1].kind is Eof {
            match st[0].kind {
                SpecKind::Int(v) => Some(v),
                _ => None,
            }
        } else {
            None
        },
        Err(_) => None,
    }
}

/// A source whose only token is the end of input.
pub open spec fn no_tokens(lexed: Result<Seq<SpecToken>, SpecLexError>) -> bool {
    lexed matches Ok(st) && st.len() == 1 && st[0].kind is Eof
}

/// The declared name and the type name of a source whose tokens are
/// `type N = T;` and the end of input, with capitalized names `N` and `T`.
pub open spec fn lone_type_decl(lexed: Result<Seq<SpecToken>, SpecLexError>) -> Option<(Seq<char>, Seq<char>)> {
    match lexed {
        Ok(st) => if st.len() == 6 && st[0].kind == SpecKind::Ident("type"@) && st[2].kind is Eq && st[4].kind is Semi
            && st[5].kind is Eof {
            match (st[1].kind, st[3].kind) {
                (SpecKind::Ident(n), SpecKind::Ident(ty)) => if upper_name(n) && upper_name(ty) {
                    Some((n, ty))
                } else {
                    None
                },
                _ => None,
            }
        } else {
            None
        },
        Err(_) => None,
    }
}

/// The bound name and the number of a source whose tokens are `let x = N;`
/// and the end of input, with a value name `x` and an integer literal `N`.
pub open spec fn lone_let_int(lexed: Result<Seq<SpecToken>, SpecLexError>) -> Option<(Seq<char>, i64)> {
    match lexed {
        Ok(st) => if st.len() == 6 && st[0].kind == SpecKind::Ident("let"@) && st[2].kind is Eq && st[4].kind is Semi
            && st[5].kind is Eof {
            match (st[1].kind, st[3].kind) {
                (SpecKind::Ident(n), SpecKind::Int(v)) => if value_name(n) {
                    Some((n, v))
                } else {
                    None
                },
                _ => None,
            }
        } else {
            None
        },
        Err(_) => None,
    }
}

/// The text of string part models, when none is interpolated.
pub open spec fn plain_text_model(parts: Seq<SpecPart>) -> Option<Seq<char>>
    decreases parts.len(),
{
    if parts.len() == 0 {
        Some(Seq::empty())
    } else {
        match (plain_text_model(parts.drop_last()), parts.last()) {
            (Some(s), SpecPart::Text(x)) => Some(s + x),
            _ => None,
        }
    }
}

/// The text of string parts is the text of their models.
pub proof fn lemma_plain_text_model(parts: Seq<StringPart>)
    ensures
        plain_text_model(parts_view(parts)) == plain_text(parts),
    decreases parts.len(),
{
    if parts.len() > 0 {
        lemma_plain_text_model(parts.drop_last());
        assert(parts_view(parts).drop_last() =~= parts_view(parts.drop_last()));
        assert(parts_view(parts).last() == part_view(parts.last()));
    }
}

/// An integer literal, `true`, `false`, or a string literal without
/// interpolation.
pub open spec fn lit_kind(k: SpecKind) -> bool {
    ||| k is Int
    ||| k == SpecKind::Ident("true"@)
    ||| k == SpecKind::Ident("false"@)
    ||| (k matches SpecKind::Str(parts) && plain_text_model(parts) is Some)
}

/// `x` is the expression the literal `k` stands for.
pub open spec fn lit_expr(k: SpecKind, x: Expr) -> bool {
    match k {
        SpecKind::Int(v) => x == Expr::Int(v),
        SpecKind::Ident(n) => x == Expr::Bool(n == "true"@),
        SpecKind::Str(parts) => x matches Expr::String(s) && plain_text_model(parts) == Some(s@),
        _ => false,
    }
}

/// A literal as a token.
pub open spec fn lit_token(k: TokenKind) -> bool {
    lit_kind(kind_view(k))
}

/// A literal token is an atom, and what the parser makes of it is the
/// expression its model stands for.
pub proof fn lemma_lit_token(k: TokenKind, e: Expr)
    requires
        lit_token(k),
    ensures
        atom_token(k),
        atom_result(k, e) ==> (e matches Expr::Spanned(x, _) && lit_expr(kind_view(k), *x)),
{
    reveal_strlit("true");
    reveal_strlit("false");
    reveal_strlit("none");
    assert("true"@ != "false"@) by {
        assert("true"@.len() != "false"@.len());
    }
    assert("true"@ != "none"@ && "false"@ != "none"@) by {
        assert("true"@[0] != "none"@[0]);
        assert("false"@.len() != "none"@.len());
    }
    if let TokenKind::Str(parts) = k {
        lemma_plain_text_model(parts@);
        assert forall|x: int| 0 <= x < parts@.len() implies (#[trigger] parts@[x]) is Text by {
            if !(parts@[x] is Text) {
                lemma_plain_text_none(parts@, x);
            }
        }
    }
}

/// `let x = v;` stands at `p` among the token models, with a value name
/// `x` and a literal `v`.
pub open spec fn let_lit_at(st: Seq<SpecToken>, p: int) -> bool {
    &&& 0 <= p && p + 4 < st.len()
    &&& st[p].kind == SpecKind::Ident("let"@)
    &&& st[p + 1].kind matches SpecKind::Ident(n) && value_name(n)
    &&& st[p + 2].kind is Eq
    &&& lit_kind(st[p + 3].kind)
    &&& st[p + 4].kind is Semi
}

/// A source of `n` declarations `let x = v;` of literals, then, when
/// `out`, one literal, then the end of input.
pub open spec fn let_lits_file(lexed: Result<Seq<SpecToken>, SpecLexError>, n: nat, out: bool) -> bool {
    &&& lexed is Ok
    &&& lexed->Ok_0.len() == 5 * n + if out { 2int } else { 1int }
    &&& forall|k: int| 0 <= k < n ==> #[trigger] let_lit_at(lexed->Ok_0, 5 * k)
    &&& out ==> lit_kind(lexed->Ok_0[5 * n as int].kind)
    &&& lexed->Ok_0.last().kind is Eof
}

/// `d` is the declaration the models of `let x = v;` at `p` stand for.
pub open spec fn let_lit_decl(st: Seq<SpecToken>, p: int, d: Decl) -> bool {
    match d {
        Decl::Let { name, annotation, expr, .. } => st[p + 1].kind == SpecKind::Ident(name@) && annotation is None
            && (expr matches Expr::Spanned(x, _) && lit_expr(st[p + 3].kind, *x)),
        _ => false,
    }
}

/// The same source at the level of tokens.
pub open spec fn let_lits_tokens(t: Seq<Token>, n: nat, out: bool) -> bool {
    &&& t.len() == 5 * n + if out { 2int } else { 1int }
    &&& forall|k: int| 0 <= k < n ==> #[trigger] simple_let_decl(t, 5 * k)
    &&& out ==> lone_atom(t, 5 * n as int) && lit_token(t[5 * n as int].kind)
}

/// Token `i` is a name that may be bound to a value.
pub open spec fn value_name_at(t: Seq<Token>, i: int) -> bool {
    0 <= i < t.len() && (t[i].kind matches TokenKind::Ident(n) && value_name(n@))
}

/// Token `i` is a name that may label a field.
pub open spec fn field_name_at(t: Seq<Token>, i: int) -> bool {
    0 <= i < t.len() && (t[i].kind matches TokenKind::Ident(n) && field_name(n@))
}

/// `let x = a in b` at `p`, with atoms `a` and `b`.
pub open spec fn simple_let(t: Seq<Token>, p: int) -> bool {
    &&& ident_at(t, p, "let"@) && value_name_at(t, p + 1) && tg(t, p + 2, Tag::Eq)
    &&& lone_atom(t, p + 3) && ident_at(t, p + 4, "in"@) && lone_atom(t, p + 5)
}

/// `if a then b else c` at `p`, with atoms `a`, `b` and `c`.
pub open spec fn simple_if(t: Seq<Token>, p: int) -> bool {
    &&& ident_at(t, p, "if"@) && lone_atom(t, p + 1) && ident_at(t, p + 2, "then"@)
    &&& lone_atom(t, p + 3) && ident_at(t, p + 4, "else"@) && lone_atom(t, p + 5)
}

/// `(x : T) => a` at `p`, with a type name `T` and an atom `a`.
pub open spec fn simple_lambda(t: Seq<Token>, p: int) -> bool {
    &&& tg(t, p, Tag::LParen) && value_name_at(t, p + 1) && tg(t, p + 2, Tag::Colon) && lone_type(t, p + 3)
    &&& tg(t, p + 4, Tag::RParen) && tg(t, p + 5, Tag::FatArrow) && lone_atom(t, p + 6)
}

/// `import "path": x;` at `p`, with one imported name.
pub open spec fn simple_import(t: Seq<Token>, p: int) -> bool {
    &&& ident_at(t, p, "import"@) && (exists|s: Seq<char>| #[trigger] str_lit_at(t, p + 1, s))
    &&& tg(t, p + 2, Tag::Colon) && field_name_at(t, p + 3) && tg(t, p + 4, Tag::Semi)
}

/// `type N = T;` at `p`, with a type name `T`.
pub open spec fn simple_type_decl(t: Seq<Token>, p: int) -> bool {
    &&& ident_at(t, p, "type"@) && 0 <= p + 1 < t.len() && (t[p + 1].kind matches TokenKind::Ident(n) && upper_name(n@))
    &&& tg(t, p + 2, Tag::Eq) && lone_type(t, p + 3) && tg(t, p + 4, Tag::Semi)
}

/// `let x = a;` at `p`, with an atom `a`.
pub open spec fn simple_let_decl(t: Seq<Token>, p: int) -> bool {
    &&& ident_at(t, p, "let"@) && value_name_at(t, p + 1) && tg(t, p + 2, Tag::Eq)
    &&& lone_atom(t, p + 3) && tg(t, p + 4, Tag::Semi)
}

/// A file of no tokens but the end, or of one atom and the end.
pub open spec fn trivial_file(t: Seq<Token>) -> bool {
    t.len() == 1 || (t.len() == 2 && lone_atom(t, 0))
}

/// The names of record fields, in order.
pub open spec fn field_names<T>(fs: Seq<(String, T)>) -> Seq<Seq<char>> {
    fs.map_values(|f: (String, T)| f.0@)
}

/// No name occurs twice.
pub open spec fn distinct_names(ns: Seq<Seq<char>>) -> bool {
    forall|i: int, j: int| 0 <= i < j < ns.len() ==> ns[i] != ns[j]
}

/// The tokens `t[p..q]` derive the expression `e` at level `l`.
pub open spec fn ex_at(t: Seq<Token>, l: nat, p: int, e: Expr, q: int) -> bool
    decreases e, q - p, 100 - 2 * l,
{
    if !(0 <= p < q <= t.len()) || l > 12 {
        false
    } else {
        match e {
            Expr::Spanned(x, _) => ex_at(t, l, p, *x, q),
            Expr::Let(name, ann, v, b) => {
                ||| (l == 0 && q - p >= 6 && ident_at(t, p, "let"@) && ident_at(t, p + 1, name@) && value_name(name@)
                    && match ann {
                        None => exists|m: int| p + 3 < m < q - 1 && tg(t, p + 2, Tag::Eq) && ex_at(t, 0, p + 3, *v, m)
                            && #[trigger] ident_at(t, m, "in"@) && ex_at(t, 0, m + 1, *b, q),
                        Some(ty) => exists|k: int, m: int| #![trigger tg(t, k, Tag::Eq), ident_at(t, m, "in"@)]
                            p + 3 < k && k + 1 < m < q - 1 && tg(t, p + 2, Tag::Colon)
                            && ty_at(t, 0, p + 3, ty, k) && tg(t, k, Tag::Eq) && ex_at(t, 0, k + 1, *v, m)
                            && ident_at(t, m, "in"@) && ex_at(t, 0, m + 1, *b, q),
                    })
                ||| ex_fall(t, l, p, e, q)
            },
            Expr::Ascribe(x, ty) => {
                ||| (l == 1 && exists|m: int| p < m < q - 1 && ex_at(t, 2, p, *x, m) && #[trigger] tg(t, m, Tag::Colon)
                    && ty_at(t, 0, m + 1, ty, q))
                ||| ex_fall(t, l, p, e, q)
            },
            Expr::Lambda(param, pty, body) => {
                ||| (l == 2 && q - p >= 7 && tg(t, p, Tag::LParen) && ident_at(t, p + 1, param@) && value_name(param@)
                    && tg(t, p + 2, Tag::Colon) && exists|k: int| p + 3 < k && k + 2 < q && ty_at(t, 0, p + 3, pty, k)
                    && #[trigger] tg(t, k, Tag::RParen) && tg(t, k + 1, Tag::FatArrow) && ex_at(t, 0, k + 2, *body, q))
                ||| ex_fall(t, l, p, e, q)
            },
            Expr::If(c, a, b) => {
                ||| (l == 2 && ident_at(t, p, "if"@) && exists|m: int, n: int| #![trigger ident_at(t, m, "then"@), ident_at(t, n, "else"@)]
                    p + 1 < m && m + 1 < n && n + 1 < q
                    && ex_at(t, 0, p + 1, *c, m) && ident_at(t, m, "then"@)
                    && ex_at(t, 0, m + 1, *a, n) && ident_at(t, n, "else"@) && ex_at(t, 0, n + 1, *b, q))
                ||| ex_fall(t, l, p, e, q)
            },
            Expr::Binary(op, a, b) => {
                ||| (3 <= l <= 8 && exists|m: int| p < m && m + 1 < q && ex_at(t, l, p, *a, m)
                    && #[trigger] binary_op(l, tag_of(t[m].kind)) == Some(op@) && ex_at(t, l + 1, m + 1, *b, q))
                ||| ex_fall(t, l, p, e, q)
            },
            Expr::Unary(op, x) => {
                ||| (l == 9 && ((tg(t, p, Tag::Bang) && op@ == "!"@) || (tg(t, p, Tag::Minus) && op@ == "-"@))
                    && ex_at(t, 9, p + 1, *x, q))
                ||| ex_fall(t, l, p, e, q)
            },
            Expr::Apply(f, a) => {
                ||| (l == 10 && exists|m: int| p < m < q && ex_at(t, 10, p, *f, m) && #[trigger] starts_atom(t[m].kind)
                    && ex_at(t, 11, m, *a, q))
                ||| ex_fall(t, l, p, e, q)
            },
            Expr::Field(x, name) => {
                ||| (l == 11 && q - p >= 3 && tg(t, q - 2, Tag::Dot) && ident_at(t, q - 1, name@) && field_name(name@)
                    && ex_at(t, 11, p, *x, q - 2))
                ||| ex_fall(t, l, p, e, q)
            },
            Expr::Int(v) => (l == 12 && q == p + 1 && t[p].kind == TokenKind::Int(v)) || ex_fall(t, l, p, e, q),
            Expr::Float(s) => (l == 12 && q == p + 1 && (t[p].kind matches TokenKind::Float(x) && x@ == s@))
                || ex_fall(t, l, p, e, q),
            Expr::Bool(b) => (l == 12 && q == p + 1 && ident_at(t, p, if b { "true"@ } else { "false"@ }))
                || ex_fall(t, l, p, e, q),
            Expr::OptNone => (l == 12 && q == p + 1 && ident_at(t, p, "none"@)) || ex_fall(t, l, p, e, q),
            Expr::Var(name) => (l == 12 && q == p + 1 && ident_at(t, p, name@) && !reserved(name@)) || ex_fall(t, l, p, e, q),
            Expr::String(s) => (l == 12 && q == p + 1 && str_lit_at(t, p, s@)) || ex_fall(t, l, p, e, q),
            Expr::Interp(parts) => {
                ||| (l == 12 && q == p + 1 && (t[p].kind matches TokenKind::Str(sp) && plain_text(sp@) is None
                    && parts_at(sp@, parts@)))
                ||| ex_fall(t, l, p, e, q)
            },
            Expr::OptSome(x) => (l == 12 && ident_at(t, p, "some"@) && ex_at(t, 0, p + 1, *x, q)) || ex_fall(t, l, p, e, q),
            Expr::List(items) => {
                ||| (l == 12 && q - p >= 2 && tg(t, p, Tag::LBracket) && tg(t, q - 1, Tag::RBracket)
                    && items_at(t, p + 1, items@, q - 1))
                ||| ex_fall(t, l, p, e, q)
            },
            Expr::Record(fields) => {
                ||| (l == 12 && q - p >= 2 && tg(t, p, Tag::LBrace) && tg(t, q - 1, Tag::RBrace)
                    && distinct_names(field_names(fields@)) && efields_at(t, p + 1, fields@, q - 1))
                ||| ex_fall(t, l, p, e, q)
            },
            _ => ex_fall(t, l, p, e, q),
        }
    }
}

/// The tokens derive `e` at a tighter level, or, at the tightest level, in
/// parentheses.
pub open spec fn ex_fall(t: Seq<Token>, l: nat, p: int, e: Expr, q: int) -> bool
    decreases e, q - p, 99 - 2 * l,
{
    if !(0 <= p < q <= t.len()) || l > 12 {
        false
    } else if l < 12 {
        ex_at(t, l + 1, p, e, q)
    } else {
        q - p >= 3 && tg(t, p, Tag::LParen) && tg(t, q - 1, Tag::RParen) && ex_at(t, 0, p + 1, e, q - 1)
    }
}

/// The interpolated parts of a string literal: text as it is, and each
/// expression part lexed on its own into tokens that derive it as a whole
/// expression.
pub open spec fn parts_at(sp: Seq<StringPart>, parts: Seq<StrPart>) -> bool
    decreases parts, 0int, 0int,
{
    if sp.len() != parts.len() {
        false
    } else if parts.len() == 0 {
        true
    } else {
        &&& parts_at(sp.drop_last(), parts.drop_last())
        &&& match (sp.last(), parts.last()) {
            (StringPart::Text(a), StrPart::Text(b)) => a@ == b@,
            (StringPart::Expr(src), StrPart::Expr(x)) => exists|ts: Seq<Token>, q: int| #![trigger tokens_view(ts), ts[q]]
                lex_from(encode_utf8(src@), 0) == Ok::<Seq<SpecToken>, SpecLexError>(tokens_view(ts))
                && 0 <= q < ts.len() && ts[q].kind is Eof && ex_at(ts, 0, 0, x, q),
            _ => false,
        }
    }
}

/// List items: expressions separated by commas, with an optional comma
/// after the last.
pub open spec fn items_at(t: Seq<Token>, p: int, items: Seq<Expr>, q: int) -> bool
    decreases items, q - p, 2int,
{
    if items.len() == 0 {
        p == q
    } else if !(0 <= p < q <= t.len()) {
        false
    } else {
        items_body(t, p, items, q) || (tg(t, q - 1, Tag::Comma) && items_body(t, p, items, q - 1))
    }
}

/// List items without a trailing comma.
pub open spec fn items_body(t: Seq<Token>, p: int, items: Seq<Expr>, q: int) -> bool
    decreases items, q - p, 1int,
{
    if items.len() == 0 || !(0 <= p < q <= t.len()) {
        false
    } else if items.len() == 1 {
        ex_at(t, 0, p, items[0], q)
    } else {
        exists|m: int| p < m < q - 1 && items_body(t, p, items.drop_last(), m) && #[trigger] tg(t, m, Tag::Comma)
            && ex_at(t, 0, m + 1, items.last(), q)
    }
}

/// Record fields `name = value`, separated by commas, with an optional comma
/// after the last.
pub open spec fn efields_at(t: Seq<Token>, p: int, fs: Seq<(String, Expr)>, q: int) -> bool
    decreases fs, q - p, 2int,
{
    if fs.len() == 0 {
        p == q
    } else if !(0 <= p < q <= t.len()) {
        false
    } else {
        efields_body(t, p, fs, q) || (tg(t, q - 1, Tag::Comma) && efields_body(t, p, fs, q - 1))
    }
}

/// One field `name = value` at `p`.
pub open spec fn efield_at(t: Seq<Token>, p: int, f: (String, Expr), q: int) -> bool
    decreases f, q - p, 0int,
{
    q - p >= 3 && ident_at(t, p, f.0@) && field_name(f.0@) && tg(t, p + 1, Tag::Eq) && ex_at(t, 0, p + 2, f.1, q)
}

/// Record fields without a trailing comma.
pub open spec fn efields_body(t: Seq<Token>, p: int, fs: Seq<(String, Expr)>, q: int) -> bool
    decreases fs, q - p, 1int,
{
    if fs.len() == 0 || !(0 <= p < q <= t.len()) {
        false
    } else if fs.len() == 1 {
        efield_at(t, p, fs[0], q)
    } else {
        exists|m: int| p < m < q - 1 && efields_body(t, p, fs.drop_last(), m) && #[trigger] tg(t, m, Tag::Comma)
            && efield_at(t, m + 1, fs.last(), q)
    }
}

/// The tokens `t[p..q]` derive the type `ty` at level `l`.
pub open spec fn ty_at(t: Seq<Token>, l: nat, p: int, ty: Type, q: int) -> bool
    decreases ty, q - p, 100 - 2 * l,
{
    if !(0 <= p < q <= t.len()) || l > 2 {
        false
    } else {
        match ty {
            Type::Spanned(x, _) => ty_at(t, l, p, *x, q),
            Type::Function(a, b) => {
                ||| (l == 0 && exists|m: int| p < m && m + 1 < q && ty_at(t, 1, p, *a, m) && #[trigger] tg(t, m, Tag::Arrow)
                    && ty_at(t, 0, m + 1, *b, q))
                ||| ty_fall(t, l, p, ty, q)
            },
            Type::Option(x) => {
                ||| (l == 1 && q - p >= 2 && tg(t, q - 1, Tag::Question) && ty_at(t, 1, p, *x, q - 1))
                ||| ty_fall(t, l, p, ty, q)
            },
            Type::Int => (l == 2 && q == p + 1 && ident_at(t, p, "Int"@)) || ty_fall(t, l, p, ty, q),
            Type::Float => (l == 2 && q == p + 1 && ident_at(t, p, "Float"@)) || ty_fall(t, l, p, ty, q),
            Type::Bool => (l == 2 && q == p + 1 && ident_at(t, p, "Bool"@)) || ty_fall(t, l, p, ty, q),
            Type::String => (l == 2 && q == p + 1 && ident_at(t, p, "String"@)) || ty_fall(t, l, p, ty, q),
            Type::Alias(n) => {
                ||| (l == 2 && q == p + 1 && ident_at(t, p, n@) && upper_name(n@) && n@ != "Int"@ && n@ != "Float"@
                    && n@ != "Bool"@ && n@ != "String"@)
                ||| ty_fall(t, l, p, ty, q)
            },
            Type::LiteralUnion(lits) => (l == 2 && union_at(t, p, lits@, q)) || ty_fall(t, l, p, ty, q),
            Type::List(x) => {
                ||| (l == 2 && q - p >= 3 && tg(t, p, Tag::LBracket) && tg(t, q - 1, Tag::RBracket)
                    && ty_at(t, 0, p + 1, *x, q - 1))
                ||| ty_fall(t, l, p, ty, q)
            },
            Type::Record(fields) => {
                ||| (l == 2 && q - p >= 2 && tg(t, p, Tag::LBrace) && tg(t, q - 1, Tag::RBrace)
                    && distinct_names(field_names(fields@))
                    && (fields@.len() == 0 ==> q == p + 2)
                    && (fields@.len() > 0 ==> tfields_at(t, p + 1, fields@, q - 1)))
                ||| ty_fall(t, l, p, ty, q)
            },
            Type::Refinement { binder, base, pred } => {
                ||| (l == 2 && q - p >= 7 && tg(t, p, Tag::LBrace) && ident_at(t, p + 1, binder@) && field_name(binder@)
                    && tg(t, p + 2, Tag::Colon) && tg(t, q - 1, Tag::RBrace) && exists|k: int| p + 3 < k && k + 1 < q - 1
                    && ty_at(t, 0, p + 3, *base, k) && #[trigger] tg(t, k, Tag::Pipe) && ex_at(t, 0, k + 1, *pred, q - 1))
                ||| ty_fall(t, l, p, ty, q)
            },
        }
    }
}

/// The tokens derive `ty` at a tighter level, or, at the tightest level, in
/// parentheses.
pub open spec fn ty_fall(t: Seq<Token>, l: nat, p: int, ty: Type, q: int) -> bool
    decreases ty, q - p, 99 - 2 * l,
{
    if !(0 <= p < q <= t.len()) || l > 2 {
        false
    } else if l < 2 {
        ty_at(t, l + 1, p, ty, q)
    } else {
        q - p >= 3 && tg(t, p, Tag::LParen) && tg(t, q - 1, Tag::RParen) && ty_at(t, 0, p + 1, ty, q - 1)
    }
}

/// Record type fields `name : T`, separated by commas, with an optional
/// comma after the last.
pub open spec fn tfields_at(t: Seq<Token>, p: int, fs: Seq<(String, Type)>, q: int) -> bool
    decreases fs, q - p, 2int,
{
    if fs.len() == 0 || !(0 <= p < q <= t.len()) {
        false
    } else {
        tfields_body(t, p, fs, q) || (tg(t, q - 1, Tag::Comma) && tfields_body(t, p, fs, q - 1))
    }
}

/// One field `name : T` at `p`.
pub open spec fn tfield_at(t: Seq<Token>, p: int, f: (String, Type), q: int) -> bool
    decreases f, q - p, 0int,
{
    q - p >= 3 && ident_at(t, p, f.0@) && field_name(f.0@) && tg(t, p + 1, Tag::Colon) && ty_at(t, 0, p + 2, f.1, q)
}

/// Record type fields without a trailing comma.
pub open spec fn tfields_body(t: Seq<Token>, p: int, fs: Seq<(String, Type)>, q: int) -> bool
    decreases fs, q - p, 1int,
{
    if fs.len() == 0 || !(0 <= p < q <= t.len()) {
        false
    } else if fs.len() == 1 {
        tfield_at(t, p, fs[0], q)
    } else {
        exists|m: int| p < m < q - 1 && tfields_body(t, p, fs.drop_last(), m) && #[trigger] tg(t, m, Tag::Comma)
            && tfield_at(t, m + 1, fs.last(), q)
    }
}

/// String literals separated by `|`.
pub open spec fn union_at(t: Seq<Token>, p: int, lits: Seq<String>, q: int) -> bool
    decreases lits.len(),
{
    if lits.len() == 0 {
        false
    } else if lits.len() == 1 {
        q == p + 1 && str_lit_at(t, p, lits[0]@)
    } else {
        q - p >= 3 && tg(t, q - 2, Tag::Pipe) && str_lit_at(t, q - 1, lits.last()@) && union_at(t, p, lits.drop_last(), q - 2)
    }
}

/// Names separated by commas.
pub open spec fn names_at(t: Seq<Token>, p: int, names: Seq<String>, q: int) -> bool
    decreases names.len(),
{
    if names.len() == 0 {
        false
    } else if names.len() == 1 {
        q == p + 1 && ident_at(t, p, names[0]@) && field_name(names[0]@)
    } else {
        q - p >= 3 && tg(t, q - 2, Tag::Comma) && ident_at(t, q - 1, names.last()@) && field_name(names.last()@)
            && names_at(t, p, names.drop_last(), q - 2)
    }
}

/// The tokens `t[p..q]` derive one declaration.
pub open spec fn decl_at(t: Seq<Token>, p: int, d: Decl, q: int) -> bool {
    0 <= p < q <= t.len() && match d {
        Decl::Import { path, names } => {
            &&& ident_at(t, p, "import"@)
            &&& str_lit_at(t, p + 1, path@)
            &&& tg(t, p + 2, Tag::Colon)
            &&& tg(t, q - 1, Tag::Semi)
            &&& names_at(t, p + 3, names@, q - 1)
        },
        Decl::Type { export, name, ty } => {
            let s = if export { p + 1 } else { p };
            &&& (export ==> ident_at(t, p, "export"@))
            &&& ident_at(t, s, "type"@)
            &&& ident_at(t, s + 1, name@) && upper_name(name@)
            &&& tg(t, s + 2, Tag::Eq)
            &&& tg(t, q - 1, Tag::Semi)
            &&& ty_at(t, 0, s + 3, ty, q - 1)
        },
        Decl::Let { export, name, annotation, expr } => {
            let s = if export { p + 1 } else { p };
            &&& (export ==> ident_at(t, p, "export"@))
            &&& ident_at(t, s, "let"@)
            &&& ident_at(t, s + 1, name@) && value_name(name@)
            &&& tg(t, q - 1, Tag::Semi)
            &&& match annotation {
                None => tg(t, s + 2, Tag::Eq) && ex_at(t, 0, s + 3, expr, q - 1),
                Some(ty) => tg(t, s + 2, Tag::Colon) && exists|k: int| ty_at(t, 0, s + 3, ty, k)
                    && #[trigger] tg(t, k, Tag::Eq) && ex_at(t, 0, k + 1, expr, q - 1),
            }
        },
        Decl::Native { .. } => false,
    }
}

/// Declarations one after the other.
pub open spec fn decls_at(t: Seq<Token>, p: int, ds: Seq<Decl>, q: int) -> bool
    decreases ds.len(),
{
    if ds.len() == 0 {
        p == q
    } else {
        exists|m: int| decls_at(t, p, ds.drop_last(), m) && #[trigger] decl_at(t, m, ds.last(), q)
    }
}

/// Imports come before every other declaration.
pub open spec fn imports_first(ds: Seq<Decl>) -> bool {
    forall|i: int, j: int| 0 <= i < j < ds.len() && (#[trigger] ds[j] is Import) ==> #[trigger] ds[i] is Import
}

/// The tokens of a whole file derive `f`: its declarations, imports first,
/// then its output expression if it has one, then the end of input.
pub open spec fn file_at(t: Seq<Token>, f: FileAst) -> bool {
    &&& imports_first(f.decls@)
    &&& exists|m: int, q: int| #![trigger decls_at(t, 0, f.decls@, m), t[q]] decls_at(t, 0, f.decls@, m) && 0 <= q < t.len() && t[q].kind is Eof
        && match f.output {
        None => m == q,
        Some(e) => ex_at(t, 0, m, e, q),
    }
}

/// What the tokens derive at a tighter level (or in parentheses) they
/// derive at this one.
pub proof fn lemma_ex_fall(t: Seq<Token>, l: nat, p: int, e: Expr, q: int)
    requires
        ex_fall(t, l, p, e, q),
    ensures
        ex_at(t, l, p, e, q),
    decreases e,
{
    match e {
        Expr::Spanned(x, _) => {
            assert(ex_fall(t, l, p, *x, q));
            lemma_ex_fall(t, l, p, *x, q);
        },
        _ => {},
    }
}

/// An expression derived at level `from` is derived at every looser level.
pub proof fn lemma_ex_lift(t: Seq<Token>, from: nat, to: nat, p: int, e: Expr, q: int)
    requires
        to <= from <= 12,
        ex_at(t, from, p, e, q),
    ensures
        ex_at(t, to, p, e, q),
    decreases from - to,
{
    if to < from {
        assert(ex_fall(t, (from - 1) as nat, p, e, q));
        lemma_ex_fall(t, (from - 1) as nat, p, e, q);
        lemma_ex_lift(t, (from - 1) as nat, to, p, e, q);
    }
}

/// What the tokens derive as a type at a tighter level (or in parentheses)
/// they derive at this one.
pub proof fn lemma_ty_fall(t: Seq<Token>, l: nat, p: int, ty: Type, q: int)
    requires
        ty_fall(t, l, p, ty, q),
    ensures
        ty_at(t, l, p, ty, q),
    decreases ty,
{
    match ty {
        Type::Spanned(x, _) => {
            assert(ty_fall(t, l, p, *x, q));
            lemma_ty_fall(t, l, p, *x, q);
        },
        _ => {},
    }
}

/// A type derived at level `from` is derived at every looser level.
pub proof fn lemma_ty_lift(t: Seq<Token>, from: nat, to: nat, p: int, ty: Type, q: int)
    requires
        to <= from <= 2,
        ty_at(t, from, p, ty, q),
    ensures
        ty_at(t, to, p, ty, q),
    decreases from - to,
{
    if to < from {
        assert(ty_fall(t, (from - 1) as nat, p, ty, q));
        lemma_ty_fall(t, (from - 1) as nat, p, ty, q);
        lemma_ty_lift(t, (from - 1) as nat, to, p, ty, q);
    }
}

/// String parts with an interpolated part have no plain text.
pub proof fn lemma_plain_text_none(parts: Seq<StringPart>, x: int)
    requires
        0 <= x < parts.len(),
        !(parts[x] is Text),
    ensures
        plain_text(parts) is None,
    decreases parts.len(),
{
    if x < parts.len() - 1 {
        assert(parts.drop_last()[x] == parts[x]);
        lemma_plain_text_none(parts.drop_last(), x);
    }
}

/// A field whose name is new keeps the names distinct.
pub proof fn lemma_push_distinct<T>(fs: Seq<(String, T)>, f: (String, T))
    requires
        distinct_names(field_names(fs)),
        forall|j: int| 0 <= j < fs.len() ==> fs[j].0@ != f.0@,
    ensures
        distinct_names(field_names(fs.push(f))),
{
    let ns = field_names(fs.push(f));
    assert forall|i: int, j: int| 0 <= i < j < ns.len() implies ns[i] != ns[j] by {
        if j < fs.len() {
            assert(ns[i] == field_names(fs)[i]);
            assert(ns[j] == field_names(fs)[j]);
        } else {
            assert(ns[j] == f.0@);
            assert(ns[i] == fs[i].0@);
        }
    }
}

} // verus!

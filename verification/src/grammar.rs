//! The grammar of SGS, stated over the tokens of a source text.
//!
//! Each rule is a function from a token position to the node it reads and the
//! position after it, or a failure at a token position with a description of
//! what was expected there. Rules that read a list call themselves on the
//! position after the element they read; the guards `q > p` that stand before
//! such calls only make termination evident, since every rule that succeeds
//! reads at least one token.
use crate::ast::{SExpr, SFnParam, SFunctionDef, SNode, SParam, SRequiredComponent, SSpanned, SStmt, SStructDef, Span};
use crate::lexer::{law_symbols_as_written, lex_spec, sym_spelling, Mode, STokKind, SToken, Sym};
use vstd::prelude::*;
use vstd::utf8::encode_utf8;

verus! {

broadcast use vstd::seq::group_seq_axioms;

/// A failure of a rule: the token position and what was expected there.
pub struct SFail {
    pub at: int,
    pub expected: Seq<char>,
}

pub open spec fn fail<A>(at: int, expected: Seq<char>) -> Result<A, SFail> {
    Err(SFail { at, expected })
}

/// The number of tokens from `p` to the end.
pub open spec fn left(t: Seq<SToken>, p: int) -> nat {
    if 0 <= p < t.len() {
        (t.len() - p) as nat
    } else {
        0
    }
}

pub open spec fn is_sym(t: Seq<SToken>, p: int, y: Sym) -> bool {
    0 <= p < t.len() && t[p].kind == STokKind::Sym(y)
}

pub open spec fn is_word(t: Seq<SToken>, p: int, w: Seq<char>) -> bool {
    0 <= p < t.len() && t[p].kind == STokKind::Ident(w)
}

pub open spec fn ident_at(t: Seq<SToken>, p: int) -> Option<Seq<char>> {
    if 0 <= p < t.len() {
        match t[p].kind {
            STokKind::Ident(x) => Some(x),
            _ => None,
        }
    } else {
        None
    }
}

/// The byte offset of character index `i`: the length of the UTF-8 encoding
/// of the characters before it.
pub open spec fn byte_at(s: Seq<char>, i: int) -> usize {
    encode_utf8(s.take(i)).len() as usize
}

/// The bytes covered by the tokens `p..q`.
pub open spec fn span_of(s: Seq<char>, t: Seq<SToken>, p: int, q: int) -> Span {
    byte_at(s, t[p].start as int)..byte_at(s, t[q - 1].end as int)
}

/// The text covered by the tokens `p..q`, as written.
pub open spec fn slice_of(s: Seq<char>, t: Seq<SToken>, p: int, q: int) -> Seq<char> {
    s.subrange(t[p].start as int, t[q - 1].end as int)
}

/// A text with its spaces removed.
pub open spec fn drop_spaces(x: Seq<char>) -> Seq<char>
    decreases x.len(),
{
    if x.len() == 0 {
        x
    } else if x.last() == ' ' {
        drop_spaces(x.drop_last())
    } else {
        drop_spaces(x.drop_last()).push(x.last())
    }
}

/// A text with each `->` removed, scanning from the left.
pub open spec fn drop_arrows(x: Seq<char>) -> Seq<char>
    decreases x.len(),
{
    if x.len() < 2 {
        x
    } else if x[0] == '-' && x[1] == '>' {
        drop_arrows(x.subrange(2, x.len() as int))
    } else {
        seq![x[0]] + drop_arrows(x.drop_first())
    }
}

// ---------------------------------------------------------------------------
// Types and paths
// ---------------------------------------------------------------------------

/// A type: a name, `[type]`, or `func(type, ...)` with an optional `-> type`.
/// The result is the position after it.
pub open spec fn parse_type(t: Seq<SToken>, p: int) -> Result<int, SFail>
    decreases left(t, p), 0nat,
{
    if !(0 <= p < t.len()) {
        fail(p, "type"@)
    } else if is_word(t, p, "func"@) && is_sym(t, p + 1, Sym::LParen) {
        let r = if is_sym(t, p + 2, Sym::RParen) {
            Ok(p + 3)
        } else {
            type_list(t, p + 2)
        };
        match r {
            Err(e) => Err(e),
            Ok(q) => if is_sym(t, q, Sym::Arrow) && q > p {
                parse_type(t, q + 1)
            } else {
                Ok(q)
            },
        }
    } else if is_sym(t, p, Sym::LBracket) {
        match parse_type(t, p + 1) {
            Err(e) => Err(e),
            Ok(q) => if is_sym(t, q, Sym::RBracket) {
                Ok(q + 1)
            } else {
                fail(q, "']'"@)
            },
        }
    } else if ident_at(t, p) is Some {
        Ok(p + 1)
    } else {
        fail(p, "type"@)
    }
}

/// The types of a function type after `(`, through the closing `)`.
pub open spec fn type_list(t: Seq<SToken>, p: int) -> Result<int, SFail>
    decreases left(t, p), 1nat,
{
    if !(0 <= p < t.len()) {
        fail(p, "type"@)
    } else {
        match parse_type(t, p) {
            Err(e) => Err(e),
            Ok(q) => if is_sym(t, q, Sym::Comma) && q > p {
                type_list(t, q + 1)
            } else if is_sym(t, q, Sym::RParen) {
                Ok(q + 1)
            } else {
                fail(q, "',' or ')'"@)
            },
        }
    }
}

/// The names `.name` that follow a path's first name, appended to `acc`.
pub open spec fn path_rest(t: Seq<SToken>, p: int, acc: Seq<Seq<char>>) -> (Seq<Seq<char>>, int)
    decreases left(t, p),
{
    if is_sym(t, p, Sym::Dot) && ident_at(t, p + 1) is Some {
        path_rest(t, p + 2, acc.push(ident_at(t, p + 1)->0))
    } else {
        (acc, p)
    }
}

/// A parameter: `[mut] name: type`; its type is written without spaces.
pub open spec fn fn_param(s: Seq<char>, t: Seq<SToken>, p: int) -> Result<(SFnParam, int), SFail> {
    let m = is_word(t, p, "mut"@);
    let n = if m {
        p + 1
    } else {
        p
    };
    match ident_at(t, n) {
        None => fail(n, "parameter name"@),
        Some(name) => if !is_sym(t, n + 1, Sym::Colon) {
            fail(n + 1, "':'"@)
        } else {
            match parse_type(t, n + 2) {
                Err(e) => Err(e),
                Ok(q) => Ok(
                    (SFnParam { is_mut: m, name, ty: drop_spaces(slice_of(s, t, n + 2, q)) }, q),
                ),
            }
        },
    }
}

/// Parameters separated by `,` through the closing symbol, appended to `acc`.
pub open spec fn param_rest(s: Seq<char>, t: Seq<SToken>, p: int, close: Sym, acc: Seq<SFnParam>) -> Result<
    (Seq<SFnParam>, int),
    SFail,
>
    decreases left(t, p),
{
    if !(0 <= p < t.len()) {
        fail(p, "parameter name"@)
    } else {
        match fn_param(s, t, p) {
            Err(e) => Err(e),
            Ok((fp, q)) => if is_sym(t, q, Sym::Comma) && q > p {
                param_rest(s, t, q + 1, close, acc.push(fp))
            } else if is_sym(t, q, close) {
                Ok((acc.push(fp), q + 1))
            } else {
                fail(q, "',' or the end of the parameters"@)
            },
        }
    }
}

/// A parameter list after its opening symbol, through the closing one.
pub open spec fn param_list(s: Seq<char>, t: Seq<SToken>, p: int, close: Sym) -> Result<
    (Seq<SFnParam>, int),
    SFail,
> {
    if is_sym(t, p, close) {
        Ok((Seq::empty(), p + 1))
    } else {
        param_rest(s, t, p, close, Seq::empty())
    }
}

// ---------------------------------------------------------------------------
// Expressions
// ---------------------------------------------------------------------------

pub open spec fn relation_op(t: Seq<SToken>, p: int) -> Option<Seq<char>> {
    if !(0 <= p < t.len()) {
        None
    } else {
        match t[p].kind {
            STokKind::Sym(Sym::EqEq) => Some("=="@),
            STokKind::Sym(Sym::NotEq) => Some("!="@),
            STokKind::Sym(Sym::Lt) => Some("<"@),
            STokKind::Sym(Sym::Gt) => Some(">"@),
            STokKind::Sym(Sym::Le) => Some("<="@),
            STokKind::Sym(Sym::Ge) => Some(">="@),
            _ => None,
        }
    }
}

pub open spec fn add_op(t: Seq<SToken>, p: int) -> Option<Seq<char>> {
    if !(0 <= p < t.len()) {
        None
    } else {
        match t[p].kind {
            STokKind::Sym(Sym::Plus) => Some("+"@),
            STokKind::Sym(Sym::Minus) => Some("-"@),
            STokKind::Sym(Sym::PlusPlus) => Some("++"@),
            _ => None,
        }
    }
}

pub open spec fn mul_op(t: Seq<SToken>, p: int) -> Option<Seq<char>> {
    if !(0 <= p < t.len()) {
        None
    } else {
        match t[p].kind {
            STokKind::Sym(Sym::Star) => Some("*"@),
            STokKind::Sym(Sym::Slash) => Some("/"@),
            _ => None,
        }
    }
}

pub open spec fn assign_op(t: Seq<SToken>, p: int) -> Option<Seq<char>> {
    if !(0 <= p < t.len()) {
        None
    } else {
        match t[p].kind {
            STokKind::Sym(Sym::Assign) => Some("="@),
            STokKind::Sym(Sym::PlusAssign) => Some("+="@),
            STokKind::Sym(Sym::MinusAssign) => Some("-="@),
            STokKind::Sym(Sym::StarAssign) => Some("*="@),
            STokKind::Sym(Sym::SlashAssign) => Some("/="@),
            STokKind::Sym(Sym::PlusPlusAssign) => Some("++="@),
            _ => None,
        }
    }
}

pub open spec fn binary(l: SExpr, op: Seq<char>, r: SExpr) -> SExpr {
    SExpr::BinaryOp { left: Box::new(l), op, right: Box::new(r) }
}

/// An expression: sums compared left to right by `==`, `!=`, `<`, `>`, `<=`, `>=`.
pub open spec fn parse_expr(s: Seq<char>, t: Seq<SToken>, p: int) -> Result<(SExpr, int), SFail>
    decreases left(t, p), 5nat,
{
    if !(0 <= p < t.len()) {
        fail(p, "expression"@)
    } else {
        match parse_math(s, t, p) {
            Err(e) => Err(e),
            Ok((l, q)) => if q > p {
                expr_rest(s, t, q, l)
            } else {
                fail(q, "expression"@)
            },
        }
    }
}

pub open spec fn expr_rest(s: Seq<char>, t: Seq<SToken>, p: int, l: SExpr) -> Result<(SExpr, int), SFail>
    decreases left(t, p), 5nat,
{
    if !(0 <= p < t.len()) {
        Ok((l, p))
    } else {
        match relation_op(t, p) {
            None => Ok((l, p)),
            Some(op) => match parse_math(s, t, p + 1) {
                Err(e) => Err(e),
                Ok((r, q)) => if q > p {
                    expr_rest(s, t, q, binary(l, op, r))
                } else {
                    fail(q, "expression"@)
                },
            },
        }
    }
}

/// A sum: terms joined left to right by `+`, `-`, `++`.
pub open spec fn parse_math(s: Seq<char>, t: Seq<SToken>, p: int) -> Result<(SExpr, int), SFail>
    decreases left(t, p), 4nat,
{
    if !(0 <= p < t.len()) {
        fail(p, "expression"@)
    } else {
        match parse_term(s, t, p) {
            Err(e) => Err(e),
            Ok((l, q)) => if q > p {
                math_rest(s, t, q, l)
            } else {
                fail(q, "expression"@)
            },
        }
    }
}

pub open spec fn math_rest(s: Seq<char>, t: Seq<SToken>, p: int, l: SExpr) -> Result<(SExpr, int), SFail>
    decreases left(t, p), 4nat,
{
    if !(0 <= p < t.len()) {
        Ok((l, p))
    } else {
        match add_op(t, p) {
            None => Ok((l, p)),
            Some(op) => match parse_term(s, t, p + 1) {
                Err(e) => Err(e),
                Ok((r, q)) => if q > p {
                    math_rest(s, t, q, binary(l, op, r))
                } else {
                    fail(q, "expression"@)
                },
            },
        }
    }
}

/// A term: casts joined left to right by `*`, `/`.
pub open spec fn parse_term(s: Seq<char>, t: Seq<SToken>, p: int) -> Result<(SExpr, int), SFail>
    decreases left(t, p), 3nat,
{
    if !(0 <= p < t.len()) {
        fail(p, "expression"@)
    } else {
        match parse_cast(s, t, p) {
            Err(e) => Err(e),
            Ok((l, q)) => if q > p {
                term_rest(s, t, q, l)
            } else {
                fail(q, "expression"@)
            },
        }
    }
}

pub open spec fn term_rest(s: Seq<char>, t: Seq<SToken>, p: int, l: SExpr) -> Result<(SExpr, int), SFail>
    decreases left(t, p), 3nat,
{
    if !(0 <= p < t.len()) {
        Ok((l, p))
    } else {
        match mul_op(t, p) {
            None => Ok((l, p)),
            Some(op) => match parse_cast(s, t, p + 1) {
                Err(e) => Err(e),
                Ok((r, q)) => if q > p {
                    term_rest(s, t, q, binary(l, op, r))
                } else {
                    fail(q, "expression"@)
                },
            },
        }
    }
}

/// A factor followed by any number of `as name`.
pub open spec fn parse_cast(s: Seq<char>, t: Seq<SToken>, p: int) -> Result<(SExpr, int), SFail>
    decreases left(t, p), 2nat,
{
    if !(0 <= p < t.len()) {
        fail(p, "expression"@)
    } else {
        match parse_factor(s, t, p) {
            Err(e) => Err(e),
            Ok((e, q)) => Ok(cast_rest(t, q, e)),
        }
    }
}

pub open spec fn cast_rest(t: Seq<SToken>, p: int, e: SExpr) -> (SExpr, int)
    decreases left(t, p),
{
    if is_word(t, p, "as"@) && ident_at(t, p + 1) is Some {
        cast_rest(t, p + 2, SExpr::Cast { expr: Box::new(e), ty_name: ident_at(t, p + 1)->0 })
    } else {
        (e, p)
    }
}

/// A factor: a literal, a parenthesized expression, an array, a closure, an
/// interpolated string, or what starts with a name.
pub open spec fn parse_factor(s: Seq<char>, t: Seq<SToken>, p: int) -> Result<(SExpr, int), SFail>
    decreases left(t, p), 1nat,
{
    if !(0 <= p < t.len()) {
        fail(p, "expression"@)
    } else {
        match t[p].kind {
            STokKind::Number(x) => Ok((SExpr::Number(x), p + 1)),
            STokKind::Str(x) => Ok((SExpr::StringLit(x), p + 1)),
            STokKind::InterpStart => match interp_parts(s, t, p + 1, Seq::empty()) {
                Err(e) => Err(e),
                Ok((parts, q)) => Ok((SExpr::StringInterp(parts), q)),
            },
            STokKind::Sym(Sym::LParen) => match parse_expr(s, t, p + 1) {
                Err(e) => Err(e),
                Ok((e, q)) => if is_sym(t, q, Sym::RParen) {
                    Ok((e, q + 1))
                } else {
                    fail(q, "')'"@)
                },
            },
            STokKind::Sym(Sym::LBracket) => if is_sym(t, p + 1, Sym::RBracket) {
                Ok((SExpr::Array(Seq::empty()), p + 2))
            } else {
                match expr_list(s, t, p + 1, Sym::RBracket, Seq::empty()) {
                    Err(e) => Err(e),
                    Ok((items, q)) => Ok((SExpr::Array(items), q)),
                }
            },
            STokKind::Sym(Sym::Pipe) => match param_list(s, t, p + 1, Sym::Pipe) {
                Err(e) => Err(e),
                Ok((params, q)) => if q > p {
                    match parse_block(s, t, q) {
                        Err(e) => Err(e),
                        Ok((body, r)) => Ok((SExpr::Closure { params, body }, r)),
                    }
                } else {
                    fail(q, "'{'"@)
                },
            },
            STokKind::Ident(x) => factor_word(s, t, p, x),
            _ => fail(p, "expression"@),
        }
    }
}

/// What starts with the name `x` at `p`: a boolean, a struct literal, a call,
/// a method call, an index or a path.
pub open spec fn factor_word(s: Seq<char>, t: Seq<SToken>, p: int, x: Seq<char>) -> Result<(SExpr, int), SFail>
    decreases left(t, p), 0nat,
{
    if !(0 <= p < t.len()) {
        fail(p, "expression"@)
    } else if x == "true"@ {
        Ok((SExpr::Bool(true), p + 1))
    } else if x == "false"@ {
        Ok((SExpr::Bool(false), p + 1))
    } else if is_sym(t, p + 1, Sym::LBrace) && ident_at(t, p + 2) is Some && is_sym(t, p + 3, Sym::Colon) {
        match field_list(s, t, p + 2, Seq::empty()) {
            Err(e) => Err(e),
            Ok((fields, q)) => Ok((SExpr::StructInit { name: x, fields }, q)),
        }
    } else {
        let (path, q) = path_rest(t, p + 1, seq![x]);
        if q > p {
            after_path(s, t, q, path)
        } else {
            Ok((SExpr::Path(path), q))
        }
    }
}

/// A call of a path: a call of the function it names when it is one name, or
/// a call of the method named by its last name on the rest of it.
pub open spec fn call_of(path: Seq<Seq<char>>, args: Seq<SExpr>) -> SExpr {
    if path.len() == 1 {
        SExpr::Call { target: Box::new(SExpr::Path(path)), args }
    } else {
        SExpr::MethodCall { target: Box::new(SExpr::Path(path.drop_last())), method: path.last(), args }
    }
}

/// What follows a path at `q`: call arguments, an index, or nothing.
pub open spec fn after_path(s: Seq<char>, t: Seq<SToken>, q: int, path: Seq<Seq<char>>) -> Result<(SExpr, int), SFail>
    decreases left(t, q), 0nat,
{
    if is_sym(t, q, Sym::LParen) {
        let args = if is_sym(t, q + 1, Sym::RParen) {
            Ok((Seq::empty(), q + 2))
        } else {
            expr_list(s, t, q + 1, Sym::RParen, Seq::empty())
        };
        match args {
            Err(e) => Err(e),
            Ok((args, r)) => Ok((call_of(path, args), r)),
        }
    } else if is_sym(t, q, Sym::LBracket) {
        match parse_expr(s, t, q + 1) {
            Err(e) => Err(e),
            Ok((i, r)) => if is_sym(t, r, Sym::RBracket) {
                Ok((SExpr::Index { target: Box::new(SExpr::Path(path)), index: Box::new(i) }, r + 1))
            } else {
                fail(r, "']'"@)
            },
        }
    } else {
        Ok((SExpr::Path(path), q))
    }
}

/// Expressions separated by `,` through the closing symbol, appended to `acc`.
pub open spec fn expr_list(s: Seq<char>, t: Seq<SToken>, p: int, close: Sym, acc: Seq<SExpr>) -> Result<
    (Seq<SExpr>, int),
    SFail,
>
    decreases left(t, p), 9nat,
{
    if !(0 <= p < t.len()) {
        fail(p, "expression"@)
    } else {
        match parse_expr(s, t, p) {
            Err(e) => Err(e),
            Ok((e, q)) => if is_sym(t, q, Sym::Comma) && q > p {
                expr_list(s, t, q + 1, close, acc.push(e))
            } else if is_sym(t, q, close) {
                Ok((acc.push(e), q + 1))
            } else {
                fail(q, "',' or a closing bracket"@)
            },
        }
    }
}

/// Fields `name: expr` separated by `,` through the closing `}`, appended to `acc`.
pub open spec fn field_list(s: Seq<char>, t: Seq<SToken>, p: int, acc: Seq<(Seq<char>, SExpr)>) -> Result<
    (Seq<(Seq<char>, SExpr)>, int),
    SFail,
>
    decreases left(t, p), 9nat,
{
    if !(0 <= p < t.len()) {
        fail(p, "field name"@)
    } else {
        match ident_at(t, p) {
            None => fail(p, "field name"@),
            Some(f) => if !is_sym(t, p + 1, Sym::Colon) {
                fail(p + 1, "':'"@)
            } else {
                match parse_expr(s, t, p + 2) {
                    Err(e) => Err(e),
                    Ok((e, q)) => if is_sym(t, q, Sym::Comma) && q > p {
                        field_list(s, t, q + 1, acc.push((f, e)))
                    } else if is_sym(t, q, Sym::RBrace) {
                        Ok((acc.push((f, e)), q + 1))
                    } else {
                        fail(q, "',' or '}'"@)
                    },
                }
            },
        }
    }
}

/// The pieces of an interpolated string through its closing quote, appended to `acc`.
pub open spec fn interp_parts(s: Seq<char>, t: Seq<SToken>, p: int, acc: Seq<SExpr>) -> Result<
    (Seq<SExpr>, int),
    SFail,
>
    decreases left(t, p), 9nat,
{
    if !(0 <= p < t.len()) {
        fail(p, "'\"'"@)
    } else {
        match t[p].kind {
            STokKind::InterpEnd => Ok((acc, p + 1)),
            STokKind::InterpText(x) => interp_parts(s, t, p + 1, acc.push(SExpr::StringLit(x))),
            STokKind::InterpOpen => match parse_expr(s, t, p + 1) {
                Err(e) => Err(e),
                Ok((e, q)) => if 0 <= q < t.len() && t[q].kind is InterpClose && q > p {
                    interp_parts(s, t, q + 1, acc.push(e))
                } else {
                    fail(q, "'}'"@)
                },
            },
            _ => fail(p, "'\"'"@),
        }
    }
}

// ---------------------------------------------------------------------------
// Statements
// ---------------------------------------------------------------------------

pub open spec fn spanned(s: Seq<char>, t: Seq<SToken>, node: SStmt, p: int, q: int) -> SSpanned<SStmt> {
    SSpanned { node, span: span_of(s, t, p, q) }
}

/// A block: `{`, statements, `}`.
pub open spec fn parse_block(s: Seq<char>, t: Seq<SToken>, p: int) -> Result<(Seq<SSpanned<SStmt>>, int), SFail>
    decreases left(t, p), 6nat,
{
    if !is_sym(t, p, Sym::LBrace) {
        fail(p, "'{'"@)
    } else {
        block_items(s, t, p + 1, Seq::empty())
    }
}

/// Statements through the closing `}`, appended to `acc`.
pub open spec fn block_items(s: Seq<char>, t: Seq<SToken>, p: int, acc: Seq<SSpanned<SStmt>>) -> Result<
    (Seq<SSpanned<SStmt>>, int),
    SFail,
>
    decreases left(t, p), 9nat,
{
    if !(0 <= p < t.len()) {
        fail(p, "'}'"@)
    } else if is_sym(t, p, Sym::RBrace) {
        Ok((acc, p + 1))
    } else {
        match parse_stmt(s, t, p) {
            Err(e) => Err(e),
            Ok((st, q)) => if q > p {
                block_items(s, t, q, acc.push(st))
            } else {
                fail(q, "statement"@)
            },
        }
    }
}

/// A statement. An expression that is followed by the `}` of its block,
/// without `;`, is the block's implicit return value.
pub open spec fn parse_stmt(s: Seq<char>, t: Seq<SToken>, p: int) -> Result<(SSpanned<SStmt>, int), SFail>
    decreases left(t, p), 8nat,
{
    if !(0 <= p < t.len()) {
        fail(p, "statement"@)
    } else if is_word(t, p, "let"@) {
        stmt_let(s, t, p)
    } else if is_word(t, p, "return"@) {
        stmt_return(s, t, p)
    } else if is_word(t, p, "if"@) {
        match parse_if(s, t, p) {
            Err(e) => Err(e),
            Ok((node, q)) => Ok((spanned(s, t, node, p, q), q)),
        }
    } else if is_word(t, p, "while"@) {
        stmt_while(s, t, p)
    } else if is_word(t, p, "for"@) {
        stmt_for(s, t, p)
    } else if is_word(t, p, "break"@) {
        if is_sym(t, p + 1, Sym::Semi) {
            Ok((spanned(s, t, SStmt::Break, p, p + 2), p + 2))
        } else {
            fail(p + 1, "';'"@)
        }
    } else if is_word(t, p, "continue"@) {
        if is_sym(t, p + 1, Sym::Semi) {
            Ok((spanned(s, t, SStmt::Continue, p, p + 2), p + 2))
        } else {
            fail(p + 1, "';'"@)
        }
    } else if is_sym(t, p, Sym::LBrace) {
        match parse_block(s, t, p) {
            Err(e) => Err(e),
            Ok((b, q)) => Ok((spanned(s, t, SStmt::Block(b), p, q), q)),
        }
    } else {
        stmt_simple(s, t, p)
    }
}

/// `let [mut] name = expr;`
pub open spec fn stmt_let(s: Seq<char>, t: Seq<SToken>, p: int) -> Result<(SSpanned<SStmt>, int), SFail>
    decreases left(t, p), 6nat,
{
    let m = is_word(t, p + 1, "mut"@);
    let n = if m {
        p + 2
    } else {
        p + 1
    };
    if !(0 <= p < t.len()) {
        fail(p, "'let'"@)
    } else {
        match ident_at(t, n) {
            None => fail(n, "identifier"@),
            Some(name) => if !is_sym(t, n + 1, Sym::Assign) {
                fail(n + 1, "'='"@)
            } else {
                match parse_expr(s, t, n + 2) {
                    Err(e) => Err(e),
                    Ok((v, q)) => if is_sym(t, q, Sym::Semi) {
                        Ok(
                            (
                                spanned(s, t, SStmt::Let { is_mut: m, name, value: v }, p, q + 1),
                                q + 1,
                            ),
                        )
                    } else {
                        fail(q, "';'"@)
                    },
                }
            },
        }
    }
}

/// `return [expr];`
pub open spec fn stmt_return(s: Seq<char>, t: Seq<SToken>, p: int) -> Result<(SSpanned<SStmt>, int), SFail>
    decreases left(t, p), 6nat,
{
    if !(0 <= p < t.len()) {
        fail(p, "'return'"@)
    } else if is_sym(t, p + 1, Sym::Semi) {
        Ok((spanned(s, t, SStmt::Return(None), p, p + 2), p + 2))
    } else {
        match parse_expr(s, t, p + 1) {
            Err(e) => Err(e),
            Ok((v, q)) => if is_sym(t, q, Sym::Semi) {
                Ok((spanned(s, t, SStmt::Return(Some(v)), p, q + 1), q + 1))
            } else {
                fail(q, "';'"@)
            },
        }
    }
}

/// `if expr block [else (if ... | block)]`
pub open spec fn parse_if(s: Seq<char>, t: Seq<SToken>, p: int) -> Result<(SStmt, int), SFail>
    decreases left(t, p), 6nat,
{
    if !(0 <= p < t.len()) {
        fail(p, "'if'"@)
    } else {
        match parse_expr(s, t, p + 1) {
            Err(e) => Err(e),
            Ok((c, q)) => if q <= p {
                fail(q, "'{'"@)
            } else {
                match parse_block(s, t, q) {
                    Err(e) => Err(e),
                    Ok((b, r)) => if r > p {
                        match else_part(s, t, r) {
                            Err(e) => Err(e),
                            Ok((eb, u)) => Ok((SStmt::If { condition: c, then_branch: b, else_branch: eb }, u)),
                        }
                    } else {
                        Ok((SStmt::If { condition: c, then_branch: b, else_branch: None }, r))
                    },
                }
            },
        }
    }
}

/// What may follow an `if`'s block at `r`: `else` and another `if`, `else`
/// and a block, or nothing.
pub open spec fn else_part(s: Seq<char>, t: Seq<SToken>, r: int) -> Result<(Option<Box<SSpanned<SStmt>>>, int), SFail>
    decreases left(t, r), 0nat,
{
    if !is_word(t, r, "else"@) {
        Ok((None, r))
    } else if is_word(t, r + 1, "if"@) {
        match parse_if(s, t, r + 1) {
            Err(e) => Err(e),
            Ok((n, u)) => Ok((Some(Box::new(spanned(s, t, n, r + 1, u))), u)),
        }
    } else {
        match parse_block(s, t, r + 1) {
            Err(e) => Err(e),
            Ok((eb, u)) => Ok((Some(Box::new(spanned(s, t, SStmt::Block(eb), r + 1, u))), u)),
        }
    }
}

/// `while expr block`
pub open spec fn stmt_while(s: Seq<char>, t: Seq<SToken>, p: int) -> Result<(SSpanned<SStmt>, int), SFail>
    decreases left(t, p), 6nat,
{
    if !(0 <= p < t.len()) {
        fail(p, "'while'"@)
    } else {
        match parse_expr(s, t, p + 1) {
            Err(e) => Err(e),
            Ok((c, q)) => if q <= p {
                fail(q, "'{'"@)
            } else {
                match parse_block(s, t, q) {
                    Err(e) => Err(e),
                    Ok((b, r)) => Ok(
                        (spanned(s, t, SStmt::While { condition: c, body: b }, p, r), r),
                    ),
                }
            },
        }
    }
}

/// `for [mut] name in expr block`
pub open spec fn stmt_for(s: Seq<char>, t: Seq<SToken>, p: int) -> Result<(SSpanned<SStmt>, int), SFail>
    decreases left(t, p), 6nat,
{
    let m = is_word(t, p + 1, "mut"@);
    let n = if m {
        p + 2
    } else {
        p + 1
    };
    if !(0 <= p < t.len()) {
        fail(p, "'for'"@)
    } else {
        match ident_at(t, n) {
            None => fail(n, "identifier"@),
            Some(item) => if !is_word(t, n + 1, "in"@) {
                fail(n + 1, "'in'"@)
            } else {
                match parse_expr(s, t, n + 2) {
                    Err(e) => Err(e),
                    Ok((it, q)) => if q <= p {
                        fail(q, "'{'"@)
                    } else {
                        match parse_block(s, t, q) {
                            Err(e) => Err(e),
                            Ok((b, r)) => Ok(
                                (
                                    spanned(
                                        s,
                                        t,
                                        SStmt::For { is_mut: m, item_name: item, iterable: it, body: b },
                                        p,
                                        r,
                                    ),
                                    r,
                                ),
                            ),
                        }
                    },
                }
            },
        }
    }
}

/// The start of an assignment: a path, an optional `[expr]`, and an
/// assignment operator; with the position after the operator.
pub open spec fn assign_head(s: Seq<char>, t: Seq<SToken>, p: int) -> Option<
    (Seq<Seq<char>>, Option<SExpr>, Seq<char>, int),
>
    decreases left(t, p), 6nat,
{
    match ident_at(t, p) {
        None => None,
        Some(x) => {
            let (path, q) = path_rest(t, p + 1, seq![x]);
            match assign_op(t, q) {
                Some(op) => Some((path, None, op, q + 1)),
                None => if is_sym(t, q, Sym::LBracket) && q > p {
                    match parse_expr(s, t, q + 1) {
                        Err(_) => None,
                        Ok((i, r)) => if is_sym(t, r, Sym::RBracket) {
                            match assign_op(t, r + 1) {
                                Some(op) => Some((path, Some(i), op, r + 2)),
                                None => None,
                            }
                        } else {
                            None
                        },
                    }
                } else {
                    None
                },
            }
        },
    }
}

/// An assignment, an expression statement, or a block's implicit return value.
pub open spec fn stmt_simple(s: Seq<char>, t: Seq<SToken>, p: int) -> Result<(SSpanned<SStmt>, int), SFail>
    decreases left(t, p), 7nat,
{
    if !(0 <= p < t.len()) {
        fail(p, "statement"@)
    } else {
        match assign_head(s, t, p) {
            Some((path, index, op, q)) => if q <= p {
                fail(q, "expression"@)
            } else {
                match parse_expr(s, t, q) {
                    Err(e) => Err(e),
                    Ok((v, r)) => if is_sym(t, r, Sym::Semi) {
                        Ok(
                            (
                                spanned(
                                    s,
                                    t,
                                    SStmt::Assign { target_path: path, index, op, value: v },
                                    p,
                                    r + 1,
                                ),
                                r + 1,
                            ),
                        )
                    } else {
                        fail(r, "';'"@)
                    },
                }
            },
            None => match parse_expr(s, t, p) {
                Err(e) => Err(e),
                Ok((e, q)) => if is_sym(t, q, Sym::Semi) {
                    Ok((spanned(s, t, SStmt::Expr(e), p, q + 1), q + 1))
                } else if is_sym(t, q, Sym::RBrace) {
                    Ok((spanned(s, t, SStmt::ImplicitReturn(e), p, q), q))
                } else {
                    fail(q, "';'"@)
                },
            },
        }
    }
}

// ---------------------------------------------------------------------------
// Top-level items
// ---------------------------------------------------------------------------

/// What the top-level items read so far have built: the finished nodes, the
/// kind and name set by the latest annotations, and the parts gathered for
/// entities, components and systems.
pub struct SBuild {
    pub nodes: Seq<SNode>,
    pub kind: Seq<char>,
    pub name: Seq<char>,
    pub components: Seq<Seq<char>>,
    pub params: Seq<SParam>,
    pub required: Seq<SRequiredComponent>,
    pub functions: Seq<SFunctionDef>,
}

pub open spec fn empty_build() -> SBuild {
    SBuild {
        nodes: Seq::empty(),
        kind: Seq::empty(),
        name: Seq::empty(),
        components: Seq::empty(),
        params: Seq::empty(),
        required: Seq::empty(),
        functions: Seq::empty(),
    }
}

/// Ends the definition under way: an `Entity`, `Component` or `System` kind
/// becomes a node made of the name and of the parts gathered for that kind,
/// and those parts start again empty. Parts gathered for another kind stay.
pub open spec fn finalize(b: SBuild) -> SBuild {
    if b.kind == "Entity"@ {
        SBuild {
            nodes: b.nodes.push(SNode::EntityDef { name: b.name, components: b.components }),
            components: Seq::empty(),
            ..b
        }
    } else if b.kind == "Component"@ {
        SBuild {
            nodes: b.nodes.push(SNode::ComponentDef { name: b.name, params: b.params }),
            params: Seq::empty(),
            ..b
        }
    } else if b.kind == "System"@ {
        SBuild {
            nodes: b.nodes.push(
                SNode::SystemDef { name: b.name, required_components: b.required, functions: b.functions },
            ),
            required: Seq::empty(),
            functions: Seq::empty(),
            ..b
        }
    } else {
        b
    }
}

/// `@type kind;` ends the definition under way and starts one of that kind
/// with an empty name; `@name name;` names it; other keys change nothing.
pub open spec fn annotate(b: SBuild, key: Seq<char>, value: Seq<char>) -> SBuild {
    if key == "type"@ {
        SBuild { kind: value, name: Seq::empty(), ..finalize(b) }
    } else if key == "name"@ {
        SBuild { name: value, ..b }
    } else {
        b
    }
}

/// Struct fields `name: type` separated by `,` through `}`, appended to `acc`;
/// each type is written without spaces.
pub open spec fn field_decls(s: Seq<char>, t: Seq<SToken>, p: int, acc: Seq<(Seq<char>, Seq<char>)>) -> Result<
    (Seq<(Seq<char>, Seq<char>)>, int),
    SFail,
>
    decreases left(t, p),
{
    if !(0 <= p < t.len()) {
        fail(p, "'}'"@)
    } else if is_sym(t, p, Sym::RBrace) {
        Ok((acc, p + 1))
    } else {
        match ident_at(t, p) {
            None => fail(p, "field name"@),
            Some(f) => if !is_sym(t, p + 1, Sym::Colon) {
                fail(p + 1, "':'"@)
            } else {
                match parse_type(t, p + 2) {
                    Err(e) => Err(e),
                    Ok(q) => {
                        let acc2 = acc.push((f, drop_spaces(slice_of(s, t, p + 2, q))));
                        if is_sym(t, q, Sym::Comma) && q > p {
                            field_decls(s, t, q + 1, acc2)
                        } else if is_sym(t, q, Sym::RBrace) {
                            Ok((acc2, q + 1))
                        } else {
                            fail(q, "',' or '}'"@)
                        }
                    },
                }
            },
        }
    }
}

/// `fn name(params) [-> type] block`. The return type is the text from the
/// arrow through the type, with its spaces and each `->` removed.
pub open spec fn item_fn(s: Seq<char>, t: Seq<SToken>, p: int) -> Result<(SFunctionDef, int), SFail> {
    match ident_at(t, p + 1) {
        None => fail(p + 1, "function name"@),
        Some(name) => if !is_sym(t, p + 2, Sym::LParen) {
            fail(p + 2, "'('"@)
        } else {
            match param_list(s, t, p + 3, Sym::RParen) {
                Err(e) => Err(e),
                Ok((params, q)) => if is_sym(t, q, Sym::Arrow) {
                    match parse_type(t, q + 1) {
                        Err(e) => Err(e),
                        Ok(r) => match parse_block(s, t, r) {
                            Err(e) => Err(e),
                            Ok((body, u)) => Ok(
                                (
                                    SFunctionDef {
                                        name,
                                        params,
                                        return_ty: Some(drop_arrows(drop_spaces(slice_of(s, t, q, r)))),
                                        statements: body,
                                    },
                                    u,
                                ),
                            ),
                        },
                    }
                } else {
                    match parse_block(s, t, q) {
                        Err(e) => Err(e),
                        Ok((body, u)) => Ok(
                            (SFunctionDef { name, params, return_ty: None, statements: body }, u),
                        ),
                    }
                },
            }
        },
    }
}

/// A top-level item, and what it makes of the build:
/// `@key value;`, `mount name;`, `param name: type;`, `require [mut] name;`,
/// a function, or `struct name { fields }`, which becomes a node at once.
pub open spec fn item(s: Seq<char>, t: Seq<SToken>, p: int, b: SBuild) -> Result<(SBuild, int), SFail> {
    if is_sym(t, p, Sym::At) {
        match (ident_at(t, p + 1), ident_at(t, p + 2)) {
            (Some(key), Some(value)) => if is_sym(t, p + 3, Sym::Semi) {
                Ok((annotate(b, key, value), p + 4))
            } else {
                fail(p + 3, "';'"@)
            },
            (None, _) => fail(p + 1, "annotation key"@),
            (_, None) => fail(p + 2, "annotation value"@),
        }
    } else if is_word(t, p, "mount"@) {
        match ident_at(t, p + 1) {
            None => fail(p + 1, "component name"@),
            Some(x) => if is_sym(t, p + 2, Sym::Semi) {
                Ok((SBuild { components: b.components.push(x), ..b }, p + 3))
            } else {
                fail(p + 2, "';'"@)
            },
        }
    } else if is_word(t, p, "param"@) {
        match ident_at(t, p + 1) {
            None => fail(p + 1, "parameter name"@),
            Some(x) => if !is_sym(t, p + 2, Sym::Colon) {
                fail(p + 2, "':'"@)
            } else {
                match parse_type(t, p + 3) {
                    Err(e) => Err(e),
                    Ok(q) => if is_sym(t, q, Sym::Semi) {
                        Ok(
                            (
                                SBuild {
                                    params: b.params.push(SParam { name: x, ty: slice_of(s, t, p + 3, q) }),
                                    ..b
                                },
                                q + 1,
                            ),
                        )
                    } else {
                        fail(q, "';'"@)
                    },
                }
            },
        }
    } else if is_word(t, p, "require"@) {
        let m = is_word(t, p + 1, "mut"@);
        let n = if m {
            p + 2
        } else {
            p + 1
        };
        match ident_at(t, n) {
            None => fail(n, "component name"@),
            Some(x) => if is_sym(t, n + 1, Sym::Semi) {
                Ok(
                    (
                        SBuild {
                            required: b.required.push(SRequiredComponent { is_mut: m, name: x }),
                            ..b
                        },
                        n + 2,
                    ),
                )
            } else {
                fail(n + 1, "';'"@)
            },
        }
    } else if is_word(t, p, "fn"@) {
        match item_fn(s, t, p) {
            Err(e) => Err(e),
            Ok((f, q)) => Ok((SBuild { functions: b.functions.push(f), ..b }, q)),
        }
    } else if is_word(t, p, "struct"@) {
        match ident_at(t, p + 1) {
            None => fail(p + 1, "struct name"@),
            Some(x) => if !is_sym(t, p + 2, Sym::LBrace) {
                fail(p + 2, "'{'"@)
            } else {
                match field_decls(s, t, p + 3, Seq::empty()) {
                    Err(e) => Err(e),
                    Ok((fields, q)) => Ok(
                        (
                            SBuild {
                                nodes: b.nodes.push(SNode::StructDef(SStructDef { name: x, fields })),
                                ..b
                            },
                            q,
                        ),
                    ),
                }
            },
        }
    } else {
        fail(p, "a top-level item"@)
    }
}

/// The items from `p` to the end; the definition under way ends with the text.
pub open spec fn items(s: Seq<char>, t: Seq<SToken>, p: int, b: SBuild) -> Result<Seq<SNode>, SFail>
    decreases left(t, p),
{
    if !(0 <= p < t.len()) {
        Ok(finalize(b).nodes)
    } else {
        match item(s, t, p, b) {
            Err(e) => Err(e),
            Ok((b2, q)) => if q > p {
                items(s, t, q, b2)
            } else {
                fail(q, "a top-level item"@)
            },
        }
    }
}

/// Where a failure at token position `at` lies in the text, in bytes.
pub open spec fn fail_offset(s: Seq<char>, t: Seq<SToken>, at: int) -> usize {
    if 0 <= at < t.len() {
        byte_at(s, t[at].start as int)
    } else {
        byte_at(s, s.len() as int)
    }
}

/// The nodes of a program, or the byte offset at which it fails and what was
/// expected there.
pub open spec fn parse_spec(s: Seq<char>) -> Result<Seq<SNode>, (usize, Seq<char>)> {
    match lex_spec(s) {
        Err(e) => Err((byte_at(s, e.pos), e.expected)),
        Ok(t) => match items(s, t, 0, empty_build()) {
            Ok(nodes) => Ok(nodes),
            Err(f) => Err((fail_offset(s, t, f.at), f.expected)),
        },
    }
}

/// Every operator the grammar records is the operator as written: for a text
/// that splits into tokens, the comparison, additive, multiplicative and
/// assignment operators read at any position are the characters of the token
/// there (`x <= 1` records `<=`, `a != b` records `!=`).
pub proof fn law_operators_as_written(s: Seq<char>, p: int)
    requires
        s.len() <= usize::MAX,
        lex_spec(s) is Ok,
    ensures
        ({
            let t = lex_spec(s)->Ok_0;
            &&& relation_op(t, p) matches Some(op) ==> op == slice_of(s, t, p, p + 1)
            &&& add_op(t, p) matches Some(op) ==> op == slice_of(s, t, p, p + 1)
            &&& mul_op(t, p) matches Some(op) ==> op == slice_of(s, t, p, p + 1)
            &&& assign_op(t, p) matches Some(op) ==> op == slice_of(s, t, p, p + 1)
        }),
{
    let t = lex_spec(s)->Ok_0;
    law_symbols_as_written(s, 0, Mode::Code);
    if 0 <= p < t.len() {
        reveal_strlit("==");
        reveal_strlit("!=");
        reveal_strlit("<");
        reveal_strlit(">");
        reveal_strlit("<=");
        reveal_strlit(">=");
        reveal_strlit("+");
        reveal_strlit("-");
        reveal_strlit("++");
        reveal_strlit("*");
        reveal_strlit("/");
        reveal_strlit("=");
        reveal_strlit("+=");
        reveal_strlit("-=");
        reveal_strlit("*=");
        reveal_strlit("/=");
        reveal_strlit("++=");
        match t[p].kind {
            STokKind::Sym(y) => {
                assert(s.subrange(t[p].start as int, t[p].end as int) == sym_spelling(y));
                assert("=="@ =~= seq!['=', '=']);
                assert("!="@ =~= seq!['!', '=']);
                assert("<"@ =~= seq!['<']);
                assert(">"@ =~= seq!['>']);
                assert("<="@ =~= seq!['<', '=']);
                assert(">="@ =~= seq!['>', '=']);
                assert("+"@ =~= seq!['+']);
                assert("-"@ =~= seq!['-']);
                assert("++"@ =~= seq!['+', '+']);
                assert("*"@ =~= seq!['*']);
                assert("/"@ =~= seq!['/']);
                assert("="@ =~= seq!['=']);
                assert("+="@ =~= seq!['+', '=']);
                assert("-="@ =~= seq!['-', '=']);
                assert("*="@ =~= seq!['*', '=']);
                assert("/="@ =~= seq!['/', '=']);
                assert("++="@ =~= seq!['+', '+', '=']);
            },
            _ => {},
        }
    }
}

} // verus!

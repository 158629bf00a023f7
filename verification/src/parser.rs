//! Reading SGS source text into its definitions.
//!
//! The text is split into tokens by the lexer; each `read_` function here
//! reads one rule of the grammar and returns exactly what that rule in
//! `grammar` states.
use crate::ast::{
    node_wf, program_wf, lemma_wf_expr, lemma_wf_stmt, wf_expr, wf_exprs, wf_stmt, wf_stmts, view_exprs, view_fields, view_fn_params, view_function, view_nodes, view_param, view_required,
    view_spanned_stmt, view_stmts, view_strings, ComponentDef, EntityDef, Expr, FnParam, FunctionDef, Param,
    RequiredComponent, SExpr, SFnParam, SFunctionDef, SNode, SParam, SRequiredComponent, SSpanned, SStmt, SgsNode,
    Span, Spanned, Stmt, StructDef, SystemDef,
};
use crate::grammar::{
    add_op, after_path, annotate, assign_head, call_of, else_part, empty_build, fail_offset, field_decls, finalize, item, item_fn, items, parse_spec, SBuild, assign_op, block_items, cast_rest, relation_op, drop_arrows, drop_spaces, expr_list,
    expr_rest, factor_word, field_list, fn_param, ident_at, interp_parts, is_sym, is_word, left, math_rest,
    mul_op, param_list, param_rest, parse_block, parse_cast, parse_expr, parse_factor, parse_if, parse_math,
    parse_stmt, parse_term, parse_type, path_rest, slice_of, span_of, spanned, stmt_for, stmt_let,
    stmt_return, stmt_simple, stmt_while, term_rest, type_list, SFail,
};
use crate::lexer::{
    chars_of, is_offset_table, lemma_lex_from_ordered, lex, lex_spec, offsets, tokens_ordered, view_tokens, Mode,
    STokKind, SToken, Sym, TokKind, Token,
};
use crate::lexer::{push_char};
use crate::text::{str_eq, string_is, text};
use vstd::prelude::*;

verus! {

broadcast use vstd::seq::group_seq_axioms;

/// A failure at a token position, and what was expected there.
pub struct Fail {
    pub at: usize,
    pub expected: String,
}

impl View for Fail {
    type V = SFail;

    open spec fn view(&self) -> SFail {
        SFail { at: self.at as int, expected: self.expected@ }
    }
}

/// The text being read: its characters, its tokens, and the byte offset of
/// each character index.
struct Src {
    chars: Vec<char>,
    toks: Vec<Token>,
    offs: Vec<usize>,
}

impl Src {
    spec fn s(&self) -> Seq<char> {
        self.chars@
    }

    spec fn t(&self) -> Seq<SToken> {
        view_tokens(self.toks@)
    }

    spec fn wf(&self) -> bool {
        &&& tokens_ordered(self.t(), 0, self.s().len() as int)
        &&& is_offset_table(self.s(), self.offs@)
        &&& self.toks@.len() <= usize::MAX
        &&& self.chars@.len() <= usize::MAX
    }
}

proof fn lemma_tok(c: &Src, p: int)
    requires
        0 <= p < c.toks@.len(),
    ensures
        c.t()[p] == c.toks@[p]@,
        c.t().len() == c.toks@.len(),
{
}

proof fn lemma_toks_len(c: &Src)
    ensures
        c.t().len() == c.toks@.len(),
{
}

fn sym_at(c: &Src, p: usize, y: Sym) -> (r: bool)
    ensures
        r == is_sym(c.t(), p as int, y),
        r ==> p < c.t().len(),
        c.t().len() == c.toks@.len(),
{
    proof {
        lemma_toks_len(c);
    }
    if p < c.toks.len() {
        proof {
            lemma_tok(c, p as int);
        }
        match &c.toks[p].kind {
            TokKind::Sym(z) => *z == y,
            _ => false,
        }
    } else {
        false
    }
}

fn word_at(c: &Src, p: usize, w: &str) -> (r: bool)
    ensures
        r == is_word(c.t(), p as int, w@),
        r ==> p < c.t().len(),
        c.t().len() == c.toks@.len(),
{
    proof {
        lemma_toks_len(c);
    }
    if p < c.toks.len() {
        proof {
            lemma_tok(c, p as int);
        }
        match &c.toks[p].kind {
            TokKind::Ident(x) => str_eq(x.as_str(), w),
            _ => false,
        }
    } else {
        false
    }
}

spec fn view_opt(o: Option<String>) -> Option<Seq<char>> {
    match o {
        Some(x) => Some(x@),
        None => None,
    }
}

fn ident(c: &Src, p: usize) -> (r: Option<String>)
    ensures
        view_opt(r) == ident_at(c.t(), p as int),
        r is Some ==> p < c.t().len(),
        c.t().len() == c.toks@.len(),
{
    proof {
        lemma_toks_len(c);
    }
    if p < c.toks.len() {
        proof {
            lemma_tok(c, p as int);
        }
        match &c.toks[p].kind {
            TokKind::Ident(x) => Some(x.clone()),
            _ => None,
        }
    } else {
        None
    }
}

/// The bytes covered by the tokens `p..q`.
fn span(c: &Src, p: usize, q: usize) -> (r: Span)
    requires
        c.wf(),
        p < q <= c.t().len(),
    ensures
        r == span_of(c.s(), c.t(), p as int, q as int),
{
    proof {
        lemma_tok(c, p as int);
        lemma_tok(c, q - 1);
        assert(c.t()[p as int].start <= c.t()[q - 1].start);
    }
    let a = c.toks[p].start;
    let b = c.toks[q - 1].end;
    c.offs[a]..c.offs[b]
}

/// The text covered by the tokens `p..q`, as written.
fn slice(c: &Src, p: usize, q: usize) -> (r: String)
    requires
        c.wf(),
        p < q <= c.t().len(),
    ensures
        r@ == slice_of(c.s(), c.t(), p as int, q as int),
{
    proof {
        lemma_tok(c, p as int);
        lemma_tok(c, q - 1);
        assert(c.t()[p as int].start <= c.t()[q - 1].start);
    }
    let a = c.toks[p].start;
    let b = c.toks[q - 1].end;
    crate::lexer::text_of(&c.chars, a, b)
}

/// The characters covered by the tokens `p..q`, without spaces.
fn slice_chars_no_spaces(c: &Src, p: usize, q: usize) -> (r: Vec<char>)
    requires
        c.wf(),
        p < q <= c.t().len(),
    ensures
        r@ == drop_spaces(slice_of(c.s(), c.t(), p as int, q as int)),
{
    proof {
        lemma_tok(c, p as int);
        lemma_tok(c, q - 1);
        assert(c.t()[p as int].start <= c.t()[q - 1].start);
    }
    let a = c.toks[p].start;
    let b = c.toks[q - 1].end;
    let mut r: Vec<char> = Vec::new();
    let mut k = a;
    assert(c.s().subrange(a as int, a as int) =~= Seq::<char>::empty());
    while k < b
        invariant
            a <= k <= b <= c.s().len(),
            r@ == drop_spaces(c.s().subrange(a as int, k as int)),
        decreases b - k,
    {
        let ch = c.chars[k];
        assert(c.s().subrange(a as int, k + 1).drop_last() =~= c.s().subrange(a as int, k as int));
        if ch != ' ' {
            r.push(ch);
        }
        k = k + 1;
    }
    r
}

/// The type text of the tokens `p..q`: as written, without spaces.
fn type_text(c: &Src, p: usize, q: usize) -> (r: String)
    requires
        c.wf(),
        p < q <= c.t().len(),
    ensures
        r@ == drop_spaces(slice_of(c.s(), c.t(), p as int, q as int)),
{
    let v = slice_chars_no_spaces(c, p, q);
    let mut r = String::new();
    let mut k: usize = 0;
    while k < v.len()
        invariant
            k <= v@.len(),
            r@ == v@.take(k as int),
        decreases v@.len() - k,
    {
        push_char(&mut r, v[k]);
        assert(v@.take(k + 1) =~= v@.take(k as int).push(v@[k as int]));
        k = k + 1;
    }
    assert(v@.take(v@.len() as int) =~= v@);
    r
}

/// The return type text of the tokens `p..q`: without spaces, and with each `->` removed.
fn return_text(c: &Src, p: usize, q: usize) -> (r: String)
    requires
        c.wf(),
        p < q <= c.t().len(),
    ensures
        r@ == drop_arrows(drop_spaces(slice_of(c.s(), c.t(), p as int, q as int))),
{
    let v = slice_chars_no_spaces(c, p, q);
    let ghost x = v@;
    let n = v.len();
    let mut r = String::new();
    let mut i: usize = 0;
    assert(x.subrange(0, n as int) =~= x);
    while i < n
        invariant
            i <= n == x.len(),
            x == v@,
            r@ + drop_arrows(x.subrange(i as int, n as int)) == drop_arrows(x),
        decreases n - i,
    {
        let y = Ghost(x.subrange(i as int, n as int));
        if n - i >= 2 && v[i] == '-' && v[i + 1] == '>' {
            assert(y@.subrange(2, y@.len() as int) =~= x.subrange(i + 2, n as int));
            i = i + 2;
        } else if n - i >= 2 {
            assert(y@.drop_first() =~= x.subrange(i + 1, n as int));
            let ghost r0 = r@;
            push_char(&mut r, v[i]);
            assert(r@ + drop_arrows(x.subrange(i + 1, n as int)) =~= r0 + (seq![v@[i as int]] + drop_arrows(
                x.subrange(i + 1, n as int),
            )));
            i = i + 1;
        } else {
            assert(x.subrange(i + 1, n as int) =~= Seq::<char>::empty());
            let ghost r0 = r@;
            push_char(&mut r, v[i]);
            assert(r@ + drop_arrows(x.subrange(i + 1, n as int)) =~= r0 + y@);
            i = i + 1;
        }
    }
    assert(x.subrange(n as int, n as int) =~= Seq::<char>::empty());
    assert(r@ + Seq::<char>::empty() =~= r@);
    r
}

// ---------------------------------------------------------------------------
// Types, paths and parameters
// ---------------------------------------------------------------------------

spec fn vres_pos(r: Result<usize, Fail>) -> Result<int, SFail> {
    match r {
        Ok(q) => Ok(q as int),
        Err(f) => Err(f@),
    }
}

fn read_type(c: &Src, p: usize) -> (r: Result<usize, Fail>)
    requires
        c.wf(),
    ensures
        vres_pos(r) == parse_type(c.t(), p as int),
        r matches Ok(q) ==> p < q <= c.t().len(),
    decreases left(c.t(), p as int), 0nat,
{
    if p >= c.toks.len() {
        Err(Fail { at: p, expected: text("type") })
    } else if word_at(c, p, "func") && sym_at(c, p + 1, Sym::LParen) {
        let r = if sym_at(c, p + 2, Sym::RParen) {
            Ok(p + 3)
        } else {
            read_type_list(c, p + 2)
        };
        match r {
            Err(e) => Err(e),
            Ok(q) => if sym_at(c, q, Sym::Arrow) {
                read_type(c, q + 1)
            } else {
                Ok(q)
            },
        }
    } else if sym_at(c, p, Sym::LBracket) {
        match read_type(c, p + 1) {
            Err(e) => Err(e),
            Ok(q) => if sym_at(c, q, Sym::RBracket) {
                Ok(q + 1)
            } else {
                Err(Fail { at: q, expected: text("']'") })
            },
        }
    } else if ident(c, p).is_some() {
        Ok(p + 1)
    } else {
        Err(Fail { at: p, expected: text("type") })
    }
}

fn read_type_list(c: &Src, p: usize) -> (r: Result<usize, Fail>)
    requires
        c.wf(),
    ensures
        vres_pos(r) == type_list(c.t(), p as int),
        r matches Ok(q) ==> p < q <= c.t().len(),
    decreases left(c.t(), p as int), 1nat,
{
    if p >= c.toks.len() {
        Err(Fail { at: p, expected: text("type") })
    } else {
        match read_type(c, p) {
            Err(e) => Err(e),
            Ok(q) => if sym_at(c, q, Sym::Comma) {
                read_type_list(c, q + 1)
            } else if sym_at(c, q, Sym::RParen) {
                Ok(q + 1)
            } else {
                Err(Fail { at: q, expected: text("',' or ')'") })
            },
        }
    }
}

proof fn lemma_view_strings_push(s: Seq<String>, x: String)
    ensures
        view_strings(s.push(x)) == view_strings(s).push(x@),
{
    assert(view_strings(s.push(x)) =~= view_strings(s).push(x@));
}

/// The names `.name` after a path's first name, appended to `acc`.
fn read_path_rest(c: &Src, p: usize, acc: Vec<String>) -> (r: (Vec<String>, usize))
    requires
        c.wf(),
        p <= c.t().len(),
    ensures
        (view_strings(r.0@), r.1 as int) == path_rest(c.t(), p as int, view_strings(acc@)),
        p <= r.1 <= c.t().len(),
        r.0@.len() >= acc@.len(),
    decreases left(c.t(), p as int),
{
    if sym_at(c, p, Sym::Dot) {
        match ident(c, p + 1) {
            Some(x) => {
                let mut acc = acc;
                proof {
                    lemma_view_strings_push(acc@, x);
                }
                acc.push(x);
                read_path_rest(c, p + 2, acc)
            },
            None => (acc, p),
        }
    } else {
        (acc, p)
    }
}

fn read_fn_param(c: &Src, p: usize) -> (r: Result<(FnParam, usize), Fail>)
    requires
        c.wf(),
    ensures
        match r {
            Ok((fp, q)) => fn_param(c.s(), c.t(), p as int) == Ok::<(SFnParam, int), SFail>((fp@, q as int))
                && p < q <= c.t().len(),
            Err(f) => fn_param(c.s(), c.t(), p as int) == Err::<(SFnParam, int), SFail>(f@),
        },
{
    let m = word_at(c, p, "mut");
    let n = if m {
        p + 1
    } else {
        p
    };
    match ident(c, n) {
        None => Err(Fail { at: n, expected: text("parameter name") }),
        Some(name) => if !sym_at(c, n + 1, Sym::Colon) {
            Err(Fail { at: n + 1, expected: text("':'") })
        } else {
            match read_type(c, n + 2) {
                Err(e) => Err(e),
                Ok(q) => {
                    let ty = type_text(c, n + 2, q);
                    Ok((FnParam { is_mut: m, name, ty }, q))
                },
            }
        },
    }
}

proof fn lemma_view_fn_params_push(s: Seq<FnParam>, x: FnParam)
    ensures
        view_fn_params(s.push(x)) == view_fn_params(s).push(x@),
{
    assert(view_fn_params(s.push(x)) =~= view_fn_params(s).push(x@));
}

fn read_param_rest(c: &Src, p: usize, close: Sym, acc: Vec<FnParam>) -> (r: Result<(Vec<FnParam>, usize), Fail>)
    requires
        c.wf(),
    ensures
        match r {
            Ok((v, q)) => param_rest(c.s(), c.t(), p as int, close, view_fn_params(acc@)) == Ok::<
                (Seq<SFnParam>, int),
                SFail,
            >((view_fn_params(v@), q as int)) && p < q <= c.t().len(),
            Err(f) => param_rest(c.s(), c.t(), p as int, close, view_fn_params(acc@)) == Err::<
                (Seq<SFnParam>, int),
                SFail,
            >(f@),
        },
    decreases left(c.t(), p as int),
{
    if p >= c.toks.len() {
        return Err(Fail { at: p, expected: text("parameter name") });
    }
    match read_fn_param(c, p) {
        Err(e) => Err(e),
        Ok((fp, q)) => {
            let mut acc = acc;
            proof {
                lemma_view_fn_params_push(acc@, fp);
            }
            if sym_at(c, q, Sym::Comma) {
                acc.push(fp);
                read_param_rest(c, q + 1, close, acc)
            } else if sym_at(c, q, close) {
                acc.push(fp);
                Ok((acc, q + 1))
            } else {
                Err(Fail { at: q, expected: text("',' or the end of the parameters") })
            }
        },
    }
}

fn read_param_list(c: &Src, p: usize, close: Sym) -> (r: Result<(Vec<FnParam>, usize), Fail>)
    requires
        c.wf(),
    ensures
        match r {
            Ok((v, q)) => param_list(c.s(), c.t(), p as int, close) == Ok::<(Seq<SFnParam>, int), SFail>(
                (view_fn_params(v@), q as int),
            ) && p < q <= c.t().len(),
            Err(f) => param_list(c.s(), c.t(), p as int, close) == Err::<(Seq<SFnParam>, int), SFail>(f@),
        },
{
    if sym_at(c, p, close) {
        let v: Vec<FnParam> = Vec::new();
        assert(view_fn_params(v@) =~= Seq::<SFnParam>::empty());
        Ok((v, p + 1))
    } else {
        let v: Vec<FnParam> = Vec::new();
        assert(view_fn_params(v@) =~= Seq::<SFnParam>::empty());
        read_param_rest(c, p, close, v)
    }
}

// ---------------------------------------------------------------------------
// Expressions and statements
// ---------------------------------------------------------------------------

spec fn vr_expr(r: Result<(Expr, usize), Fail>) -> Result<(SExpr, int), SFail> {
    match r {
        Ok((e, q)) => Ok((e@, q as int)),
        Err(f) => Err(f@),
    }
}

spec fn vr_exprs(r: Result<(Vec<Expr>, usize), Fail>) -> Result<(Seq<SExpr>, int), SFail> {
    match r {
        Ok((v, q)) => Ok((view_exprs(v@), q as int)),
        Err(f) => Err(f@),
    }
}

spec fn vr_fields(r: Result<(Vec<(String, Expr)>, usize), Fail>) -> Result<(Seq<(Seq<char>, SExpr)>, int), SFail> {
    match r {
        Ok((v, q)) => Ok((view_fields(v@), q as int)),
        Err(f) => Err(f@),
    }
}

spec fn vr_block(r: Result<(Vec<Spanned<Stmt>>, usize), Fail>) -> Result<(Seq<SSpanned<SStmt>>, int), SFail> {
    match r {
        Ok((v, q)) => Ok((view_stmts(v@), q as int)),
        Err(f) => Err(f@),
    }
}

spec fn vr_stmt(r: Result<(Spanned<Stmt>, usize), Fail>) -> Result<(SSpanned<SStmt>, int), SFail> {
    match r {
        Ok((st, q)) => Ok((view_spanned_stmt(st), q as int)),
        Err(f) => Err(f@),
    }
}

spec fn vr_if(r: Result<(Stmt, usize), Fail>) -> Result<(SStmt, int), SFail> {
    match r {
        Ok((st, q)) => Ok((st@, q as int)),
        Err(f) => Err(f@),
    }
}

/// Every field value of a struct literal is well formed.
spec fn fields_wf(f: Seq<(Seq<char>, SExpr)>) -> bool {
    forall|i: int| 0 <= i < f.len() ==> wf_expr(#[trigger] f[i].1)
}

spec fn advances<A>(r: Result<(A, usize), Fail>, p: usize, n: int) -> bool {
    r matches Ok((_, q)) ==> p < q <= n
}

proof fn lemma_view_exprs_push(s: Seq<Expr>, x: Expr)
    ensures
        view_exprs(s.push(x)) == view_exprs(s).push(x@),
{
    assert(view_exprs(s.push(x)) =~= view_exprs(s).push(x@));
}

proof fn lemma_view_exprs_empty(s: Seq<Expr>)
    requires
        s.len() == 0,
    ensures
        view_exprs(s) == Seq::<SExpr>::empty(),
{
    assert(view_exprs(s) =~= Seq::<SExpr>::empty());
}

proof fn lemma_view_fields_push(s: Seq<(String, Expr)>, f: String, x: Expr)
    ensures
        view_fields(s.push((f, x))) == view_fields(s).push((f@, x@)),
{
    assert(view_fields(s.push((f, x))) =~= view_fields(s).push((f@, x@)));
}

proof fn lemma_view_stmts_push(s: Seq<Spanned<Stmt>>, x: Spanned<Stmt>)
    ensures
        view_stmts(s.push(x)) == view_stmts(s).push(view_spanned_stmt(x)),
{
    assert(view_stmts(s.push(x)) =~= view_stmts(s).push(view_spanned_stmt(x)));
}

proof fn lemma_view_strings_last(s: Seq<String>)
    requires
        s.len() > 0,
    ensures
        view_strings(s.drop_last()) == view_strings(s).drop_last(),
        s.last()@ == view_strings(s).last(),
{
    assert(view_strings(s.drop_last()) =~= view_strings(s).drop_last());
}

fn relation_text(c: &Src, p: usize) -> (r: Option<String>)
    ensures
        view_opt(r) == relation_op(c.t(), p as int),
        r is Some ==> p < c.t().len(),
{
    proof {
        lemma_toks_len(c);
    }
    if p >= c.toks.len() {
        return None;
    }
    proof {
        lemma_tok(c, p as int);
    }
    match &c.toks[p].kind {
        TokKind::Sym(Sym::EqEq) => Some(text("==")),
        TokKind::Sym(Sym::NotEq) => Some(text("!=")),
        TokKind::Sym(Sym::Lt) => Some(text("<")),
        TokKind::Sym(Sym::Gt) => Some(text(">")),
        TokKind::Sym(Sym::Le) => Some(text("<=")),
        TokKind::Sym(Sym::Ge) => Some(text(">=")),
        _ => None,
    }
}

fn add_text(c: &Src, p: usize) -> (r: Option<String>)
    ensures
        view_opt(r) == add_op(c.t(), p as int),
        r is Some ==> p < c.t().len(),
{
    proof {
        lemma_toks_len(c);
    }
    if p >= c.toks.len() {
        return None;
    }
    proof {
        lemma_tok(c, p as int);
    }
    match &c.toks[p].kind {
        TokKind::Sym(Sym::Plus) => Some(text("+")),
        TokKind::Sym(Sym::Minus) => Some(text("-")),
        TokKind::Sym(Sym::PlusPlus) => Some(text("++")),
        _ => None,
    }
}

fn mul_text(c: &Src, p: usize) -> (r: Option<String>)
    ensures
        view_opt(r) == mul_op(c.t(), p as int),
        r is Some ==> p < c.t().len(),
{
    proof {
        lemma_toks_len(c);
    }
    if p >= c.toks.len() {
        return None;
    }
    proof {
        lemma_tok(c, p as int);
    }
    match &c.toks[p].kind {
        TokKind::Sym(Sym::Star) => Some(text("*")),
        TokKind::Sym(Sym::Slash) => Some(text("/")),
        _ => None,
    }
}

fn assign_text(c: &Src, p: usize) -> (r: Option<String>)
    ensures
        view_opt(r) == assign_op(c.t(), p as int),
        r is Some ==> p < c.t().len(),
{
    proof {
        lemma_toks_len(c);
    }
    if p >= c.toks.len() {
        return None;
    }
    proof {
        lemma_tok(c, p as int);
    }
    match &c.toks[p].kind {
        TokKind::Sym(Sym::Assign) => Some(text("=")),
        TokKind::Sym(Sym::PlusAssign) => Some(text("+=")),
        TokKind::Sym(Sym::MinusAssign) => Some(text("-=")),
        TokKind::Sym(Sym::StarAssign) => Some(text("*=")),
        TokKind::Sym(Sym::SlashAssign) => Some(text("/=")),
        TokKind::Sym(Sym::PlusPlusAssign) => Some(text("++=")),
        _ => None,
    }
}

fn bin(l: Expr, op: String, r: Expr) -> (e: Expr)
    ensures
        e@ == crate::grammar::binary(l@, op@, r@),
{
    Expr::BinaryOp { left: Box::new(l), op, right: Box::new(r) }
}

fn read_expr(c: &Src, p: usize) -> (r: Result<(Expr, usize), Fail>)
    requires
        c.wf(),
    ensures
        vr_expr(r) == parse_expr(c.s(), c.t(), p as int),
        advances(r, p, c.t().len() as int),
        r matches Ok((e, _)) ==> wf_expr(e@),
    decreases left(c.t(), p as int), 5nat,
{
    if p >= c.toks.len() {
        return Err(Fail { at: p, expected: text("expression") });
    }
    match read_math(c, p) {
        Err(e) => Err(e),
        Ok((l, q)) => read_expr_rest(c, q, l),
    }
}

fn read_expr_rest(c: &Src, p: usize, l: Expr) -> (r: Result<(Expr, usize), Fail>)
    requires
        wf_expr(l@),
        c.wf(),
        p <= c.t().len(),
    ensures
        vr_expr(r) == expr_rest(c.s(), c.t(), p as int, l@),
        r matches Ok((_, q)) ==> p <= q <= c.t().len(),
        r matches Ok((e, _)) ==> wf_expr(e@),
    decreases left(c.t(), p as int), 5nat,
{
    if p >= c.toks.len() {
        return Ok((l, p));
    }
    match relation_text(c, p) {
        None => Ok((l, p)),
        Some(op) => match read_math(c, p + 1) {
            Err(e) => Err(e),
            Ok((r, q)) => read_expr_rest(c, q, bin(l, op, r)),
        },
    }
}

fn read_math(c: &Src, p: usize) -> (r: Result<(Expr, usize), Fail>)
    requires
        c.wf(),
    ensures
        vr_expr(r) == parse_math(c.s(), c.t(), p as int),
        advances(r, p, c.t().len() as int),
        r matches Ok((e, _)) ==> wf_expr(e@),
    decreases left(c.t(), p as int), 4nat,
{
    if p >= c.toks.len() {
        return Err(Fail { at: p, expected: text("expression") });
    }
    match read_term(c, p) {
        Err(e) => Err(e),
        Ok((l, q)) => read_math_rest(c, q, l),
    }
}

fn read_math_rest(c: &Src, p: usize, l: Expr) -> (r: Result<(Expr, usize), Fail>)
    requires
        wf_expr(l@),
        c.wf(),
        p <= c.t().len(),
    ensures
        vr_expr(r) == math_rest(c.s(), c.t(), p as int, l@),
        r matches Ok((_, q)) ==> p <= q <= c.t().len(),
        r matches Ok((e, _)) ==> wf_expr(e@),
    decreases left(c.t(), p as int), 4nat,
{
    if p >= c.toks.len() {
        return Ok((l, p));
    }
    match add_text(c, p) {
        None => Ok((l, p)),
        Some(op) => match read_term(c, p + 1) {
            Err(e) => Err(e),
            Ok((r, q)) => read_math_rest(c, q, bin(l, op, r)),
        },
    }
}

fn read_term(c: &Src, p: usize) -> (r: Result<(Expr, usize), Fail>)
    requires
        c.wf(),
    ensures
        vr_expr(r) == parse_term(c.s(), c.t(), p as int),
        advances(r, p, c.t().len() as int),
        r matches Ok((e, _)) ==> wf_expr(e@),
    decreases left(c.t(), p as int), 3nat,
{
    if p >= c.toks.len() {
        return Err(Fail { at: p, expected: text("expression") });
    }
    match read_cast(c, p) {
        Err(e) => Err(e),
        Ok((l, q)) => read_term_rest(c, q, l),
    }
}

fn read_term_rest(c: &Src, p: usize, l: Expr) -> (r: Result<(Expr, usize), Fail>)
    requires
        wf_expr(l@),
        c.wf(),
        p <= c.t().len(),
    ensures
        vr_expr(r) == term_rest(c.s(), c.t(), p as int, l@),
        r matches Ok((_, q)) ==> p <= q <= c.t().len(),
        r matches Ok((e, _)) ==> wf_expr(e@),
    decreases left(c.t(), p as int), 3nat,
{
    if p >= c.toks.len() {
        return Ok((l, p));
    }
    match mul_text(c, p) {
        None => Ok((l, p)),
        Some(op) => match read_cast(c, p + 1) {
            Err(e) => Err(e),
            Ok((r, q)) => read_term_rest(c, q, bin(l, op, r)),
        },
    }
}

fn read_cast(c: &Src, p: usize) -> (r: Result<(Expr, usize), Fail>)
    requires
        c.wf(),
    ensures
        vr_expr(r) == parse_cast(c.s(), c.t(), p as int),
        advances(r, p, c.t().len() as int),
        r matches Ok((e, _)) ==> wf_expr(e@),
    decreases left(c.t(), p as int), 2nat,
{
    if p >= c.toks.len() {
        return Err(Fail { at: p, expected: text("expression") });
    }
    match read_factor(c, p) {
        Err(e) => Err(e),
        Ok((e, q)) => Ok(read_cast_rest(c, q, e)),
    }
}

fn read_cast_rest(c: &Src, p: usize, e: Expr) -> (r: (Expr, usize))
    requires
        wf_expr(e@),
        c.wf(),
        p <= c.t().len(),
    ensures
        (r.0@, r.1 as int) == cast_rest(c.t(), p as int, e@),
        p <= r.1 <= c.t().len(),
        wf_expr(r.0@),
    decreases left(c.t(), p as int),
{
    if word_at(c, p, "as") {
        match ident(c, p + 1) {
            Some(ty_name) => read_cast_rest(c, p + 2, Expr::Cast { expr: Box::new(e), ty_name }),
            None => (e, p),
        }
    } else {
        (e, p)
    }
}

fn read_factor(c: &Src, p: usize) -> (r: Result<(Expr, usize), Fail>)
    requires
        c.wf(),
    ensures
        vr_expr(r) == parse_factor(c.s(), c.t(), p as int),
        advances(r, p, c.t().len() as int),
        r matches Ok((e, _)) ==> wf_expr(e@),
    decreases left(c.t(), p as int), 1nat,
{
    proof {
        lemma_toks_len(c);
    }
    if p >= c.toks.len() {
        return Err(Fail { at: p, expected: text("expression") });
    }
    proof {
        lemma_tok(c, p as int);
    }
    match &c.toks[p].kind {
        TokKind::Number(x) => {
            let e = Expr::Number(x.clone());
            proof {
                lemma_wf_expr(e@);
            }
            Ok((e, p + 1))
        },
        TokKind::Str(x) => {
            let e = Expr::StringLit(x.clone());
            proof {
                lemma_wf_expr(e@);
            }
            Ok((e, p + 1))
        },
        TokKind::InterpStart => read_factor_interp(c, p),
        TokKind::Sym(Sym::LParen) => read_factor_paren(c, p),
        TokKind::Sym(Sym::LBracket) => read_factor_array(c, p),
        TokKind::Sym(Sym::Pipe) => read_factor_closure(c, p),
        TokKind::Ident(x) => read_factor_word(c, p, x.clone()),
        _ => Err(Fail { at: p, expected: text("expression") }),
    }
}

fn read_factor_interp(c: &Src, p: usize) -> (r: Result<(Expr, usize), Fail>)
    requires
        c.wf(),
        p < c.t().len(),
        c.t()[p as int].kind is InterpStart,
    ensures
        vr_expr(r) == parse_factor(c.s(), c.t(), p as int),
        advances(r, p, c.t().len() as int),
        r matches Ok((e, _)) ==> wf_expr(e@),
    decreases left(c.t(), p as int), 0nat,
{
    let v: Vec<Expr> = Vec::new();
    proof {
        lemma_view_exprs_empty(v@);
    }
    match read_interp(c, p + 1, v) {
        Err(e) => Err(e),
        Ok((parts, q)) => {
            let e = Expr::StringInterp(parts);
            assert(e@ == SExpr::StringInterp(view_exprs(parts@)));
            proof {
                lemma_wf_expr(e@);
            }
            Ok((e, q))
        },
    }
}

fn read_factor_paren(c: &Src, p: usize) -> (r: Result<(Expr, usize), Fail>)
    requires
        c.wf(),
        p < c.t().len(),
        c.t()[p as int].kind == STokKind::Sym(Sym::LParen),
    ensures
        vr_expr(r) == parse_factor(c.s(), c.t(), p as int),
        advances(r, p, c.t().len() as int),
        r matches Ok((e, _)) ==> wf_expr(e@),
    decreases left(c.t(), p as int), 0nat,
{
    match read_expr(c, p + 1) {
        Err(e) => Err(e),
        Ok((e, q)) => if sym_at(c, q, Sym::RParen) {
            Ok((e, q + 1))
        } else {
            Err(Fail { at: q, expected: text("')'") })
        },
    }
}

fn read_factor_array(c: &Src, p: usize) -> (r: Result<(Expr, usize), Fail>)
    requires
        c.wf(),
        p < c.t().len(),
        c.t()[p as int].kind == STokKind::Sym(Sym::LBracket),
    ensures
        vr_expr(r) == parse_factor(c.s(), c.t(), p as int),
        advances(r, p, c.t().len() as int),
        r matches Ok((e, _)) ==> wf_expr(e@),
    decreases left(c.t(), p as int), 0nat,
{
    let v: Vec<Expr> = Vec::new();
    proof {
        lemma_view_exprs_empty(v@);
    }
    if sym_at(c, p + 1, Sym::RBracket) {
        let e = Expr::Array(v);
        assert(e@ == SExpr::Array(view_exprs(v@)));
        proof {
            lemma_wf_expr(e@);
        }
        Ok((e, p + 2))
    } else {
        match read_list(c, p + 1, Sym::RBracket, v) {
            Err(e) => Err(e),
            Ok((items, q)) => {
                let e = Expr::Array(items);
                assert(e@ == SExpr::Array(view_exprs(items@)));
                proof {
                    lemma_wf_expr(e@);
                }
                Ok((e, q))
            },
        }
    }
}

fn read_factor_closure(c: &Src, p: usize) -> (r: Result<(Expr, usize), Fail>)
    requires
        c.wf(),
        p < c.t().len(),
        c.t()[p as int].kind == STokKind::Sym(Sym::Pipe),
    ensures
        vr_expr(r) == parse_factor(c.s(), c.t(), p as int),
        advances(r, p, c.t().len() as int),
        r matches Ok((e, _)) ==> wf_expr(e@),
    decreases left(c.t(), p as int), 0nat,
{
    match read_param_list(c, p + 1, Sym::Pipe) {
        Err(e) => Err(e),
        Ok((params, q)) => match read_block(c, q) {
            Err(e) => Err(e),
            Ok((body, r)) => {
                let e = Expr::Closure { params, body };
                assert(e@ == SExpr::Closure { params: view_fn_params(params@), body: view_stmts(body@) });
                proof {
                    lemma_wf_expr(e@);
                }
                Ok((e, r))
            },
        },
    }
}

fn read_factor_word(c: &Src, p: usize, x: String) -> (r: Result<(Expr, usize), Fail>)
    requires
        c.wf(),
        p < c.t().len(),
    ensures
        vr_expr(r) == factor_word(c.s(), c.t(), p as int, x@),
        advances(r, p, c.t().len() as int),
        r matches Ok((e, _)) ==> wf_expr(e@),
    decreases left(c.t(), p as int), 0nat,
{
    if str_eq(x.as_str(), "true") {
        Ok((Expr::Bool(true), p + 1))
    } else if str_eq(x.as_str(), "false") {
        Ok((Expr::Bool(false), p + 1))
    } else if sym_at(c, p + 1, Sym::LBrace) && ident(c, p + 2).is_some() && sym_at(c, p + 3, Sym::Colon) {
        let v: Vec<(String, Expr)> = Vec::new();
        assert(view_fields(v@) =~= Seq::<(Seq<char>, SExpr)>::empty());
        match read_fields(c, p + 2, v) {
            Err(e) => Err(e),
            Ok((fields, q)) => Ok((Expr::StructInit { name: x, fields }, q)),
        }
    } else {
        let mut first: Vec<String> = Vec::new();
        first.push(x);
        assert(view_strings(first@) =~= seq![x@]);
        let (path, q) = read_path_rest(c, p + 1, first);
        read_after_path(c, q, path)
    }
}

fn make_call(path: Vec<String>, args: Vec<Expr>) -> (r: Expr)
    requires
        wf_exprs(view_exprs(args@)),
        path@.len() > 0,
    ensures
        r@ == call_of(view_strings(path@), view_exprs(args@)),
        wf_expr(r@),
{
    if path.len() == 1 {
        let target = Expr::Path(path);
        assert(target@ == SExpr::Path(view_strings(path@)));
        assert(wf_expr(target@));
        let r = Expr::Call { target: Box::new(target), args };
        assert(r@ == SExpr::Call { target: Box::new(target@), args: view_exprs(args@) });
        r
    } else {
        let mut path = path;
        proof {
            lemma_view_strings_last(path@);
        }
        let method = path.pop().unwrap();
        let target = Expr::Path(path);
        assert(target@ == SExpr::Path(view_strings(path@)));
        assert(wf_expr(target@));
        let r = Expr::MethodCall { target: Box::new(target), method, args };
        assert(r@ == SExpr::MethodCall { target: Box::new(target@), method: method@, args: view_exprs(args@) });
        r
    }
}

fn read_after_path(c: &Src, q: usize, path: Vec<String>) -> (r: Result<(Expr, usize), Fail>)
    requires
        c.wf(),
        q <= c.t().len(),
        path@.len() > 0,
    ensures
        vr_expr(r) == after_path(c.s(), c.t(), q as int, view_strings(path@)),
        r matches Ok((_, u)) ==> q <= u <= c.t().len(),
        r matches Ok((e, _)) ==> wf_expr(e@),
    decreases left(c.t(), q as int), 0nat,
{
    if sym_at(c, q, Sym::LParen) {
        let args = if sym_at(c, q + 1, Sym::RParen) {
            let v: Vec<Expr> = Vec::new();
            proof {
                lemma_view_exprs_empty(v@);
            }
            Ok((v, q + 2))
        } else {
            let v: Vec<Expr> = Vec::new();
            proof {
                lemma_view_exprs_empty(v@);
            }
            read_list(c, q + 1, Sym::RParen, v)
        };
        match args {
            Err(e) => Err(e),
            Ok((args, r)) => Ok((make_call(path, args), r)),
        }
    } else if sym_at(c, q, Sym::LBracket) {
        match read_expr(c, q + 1) {
            Err(e) => Err(e),
            Ok((i, r)) => if sym_at(c, r, Sym::RBracket) {
                let target = Expr::Path(path);
                assert(target@ == SExpr::Path(view_strings(path@)));
                assert(wf_expr(target@));
                let e = Expr::Index { target: Box::new(target), index: Box::new(i) };
                assert(e@ == SExpr::Index { target: Box::new(target@), index: Box::new(i@) });
                Ok((e, r + 1))
            } else {
                Err(Fail { at: r, expected: text("']'") })
            },
        }
    } else {
        let e = Expr::Path(path);
        assert(e@ == SExpr::Path(view_strings(path@)));
        Ok((e, q))
    }
}

#[verifier::loop_isolation(false)]
fn read_list(c: &Src, p: usize, close: Sym, acc: Vec<Expr>) -> (r: Result<(Vec<Expr>, usize), Fail>)
    requires
        wf_exprs(view_exprs(acc@)),
        c.wf(),
    ensures
        vr_exprs(r) == expr_list(c.s(), c.t(), p as int, close, view_exprs(acc@)),
        advances(r, p, c.t().len() as int),
        r matches Ok((v, _)) ==> wf_exprs(view_exprs(v@)),
    decreases left(c.t(), p as int), 9nat,
{
    let ghost goal = expr_list(c.s(), c.t(), p as int, close, view_exprs(acc@));
    let mut acc = acc;
    let mut q = p;
    loop
        invariant
            c.wf(),
            p <= q,
            q > p ==> q <= c.t().len(),
            expr_list(c.s(), c.t(), q as int, close, view_exprs(acc@)) == goal,
            wf_exprs(view_exprs(acc@)),
        decreases left(c.t(), q as int),
    {
        if q >= c.toks.len() {
            return Err(Fail { at: q, expected: text("expression") });
        }
        match read_expr(c, q) {
            Err(e) => {
                return Err(e);
            },
            Ok((e, q2)) => {
                proof {
                    lemma_view_exprs_push(acc@, e);
                }
                if sym_at(c, q2, Sym::Comma) {
                    acc.push(e);
                    q = q2 + 1;
                } else if sym_at(c, q2, close) {
                    acc.push(e);
                    return Ok((acc, q2 + 1));
                } else {
                    return Err(Fail { at: q2, expected: text("',' or a closing bracket") });
                }
            },
        }
    }
}

fn read_fields(c: &Src, p: usize, acc: Vec<(String, Expr)>) -> (r: Result<(Vec<(String, Expr)>, usize), Fail>)
    requires
        fields_wf(view_fields(acc@)),
        c.wf(),
    ensures
        vr_fields(r) == field_list(c.s(), c.t(), p as int, view_fields(acc@)),
        advances(r, p, c.t().len() as int),
        r matches Ok((v, _)) ==> fields_wf(view_fields(v@)),
    decreases left(c.t(), p as int), 9nat,
{
    if p >= c.toks.len() {
        return Err(Fail { at: p, expected: text("field name") });
    }
    match ident(c, p) {
        None => Err(Fail { at: p, expected: text("field name") }),
        Some(f) => if !sym_at(c, p + 1, Sym::Colon) {
            Err(Fail { at: p + 1, expected: text("':'") })
        } else {
            match read_expr(c, p + 2) {
                Err(e) => Err(e),
                Ok((e, q)) => {
                    let mut acc = acc;
                    proof {
                        lemma_view_fields_push(acc@, f, e);
                    }
                    if sym_at(c, q, Sym::Comma) {
                        acc.push((f, e));
                        read_fields(c, q + 1, acc)
                    } else if sym_at(c, q, Sym::RBrace) {
                        acc.push((f, e));
                        Ok((acc, q + 1))
                    } else {
                        Err(Fail { at: q, expected: text("',' or '}'") })
                    }
                },
            }
        },
    }
}

fn read_interp(c: &Src, p: usize, acc: Vec<Expr>) -> (r: Result<(Vec<Expr>, usize), Fail>)
    requires
        wf_exprs(view_exprs(acc@)),
        c.wf(),
    ensures
        vr_exprs(r) == interp_parts(c.s(), c.t(), p as int, view_exprs(acc@)),
        advances(r, p, c.t().len() as int),
        r matches Ok((v, _)) ==> wf_exprs(view_exprs(v@)),
    decreases left(c.t(), p as int), 9nat,
{
    proof {
        lemma_toks_len(c);
    }
    if p >= c.toks.len() {
        return Err(Fail { at: p, expected: text("'\"'") });
    }
    proof {
        lemma_tok(c, p as int);
    }
    let mut acc = acc;
    match &c.toks[p].kind {
        TokKind::InterpEnd => Ok((acc, p + 1)),
        TokKind::InterpText(x) => {
            let e = Expr::StringLit(x.clone());
            proof {
                lemma_view_exprs_push(acc@, e);
            }
            acc.push(e);
            read_interp(c, p + 1, acc)
        },
        TokKind::InterpOpen => match read_expr(c, p + 1) {
            Err(e) => Err(e),
            Ok((e, q)) => {
                let closes = q < c.toks.len() && match &c.toks[q].kind {
                    TokKind::InterpClose => true,
                    _ => false,
                };
                if closes {
                    proof {
                        lemma_tok(c, q as int);
                        lemma_view_exprs_push(acc@, e);
                    }
                    acc.push(e);
                    read_interp(c, q + 1, acc)
                } else {
                    proof {
                        if q < c.toks@.len() {
                            lemma_tok(c, q as int);
                        }
                    }
                    Err(Fail { at: q, expected: text("'}'") })
                }
            },
        },
        _ => Err(Fail { at: p, expected: text("'\"'") }),
    }
}

fn read_block(c: &Src, p: usize) -> (r: Result<(Vec<Spanned<Stmt>>, usize), Fail>)
    requires
        c.wf(),
    ensures
        vr_block(r) == parse_block(c.s(), c.t(), p as int),
        advances(r, p, c.t().len() as int),
        r matches Ok((v, _)) ==> wf_stmts(view_stmts(v@)),
    decreases left(c.t(), p as int), 6nat,
{
    if !sym_at(c, p, Sym::LBrace) {
        Err(Fail { at: p, expected: text("'{'") })
    } else {
        let v: Vec<Spanned<Stmt>> = Vec::new();
        assert(view_stmts(v@) =~= Seq::<SSpanned<SStmt>>::empty());
        read_block_items(c, p + 1, v)
    }
}

#[verifier::loop_isolation(false)]
fn read_block_items(c: &Src, p: usize, acc: Vec<Spanned<Stmt>>) -> (r: Result<(Vec<Spanned<Stmt>>, usize), Fail>)
    requires
        wf_stmts(view_stmts(acc@)),
        c.wf(),
    ensures
        vr_block(r) == block_items(c.s(), c.t(), p as int, view_stmts(acc@)),
        advances(r, p, c.t().len() as int),
        r matches Ok((v, _)) ==> wf_stmts(view_stmts(v@)),
    decreases left(c.t(), p as int), 9nat,
{
    let ghost goal = block_items(c.s(), c.t(), p as int, view_stmts(acc@));
    let mut acc = acc;
    let mut q = p;
    loop
        invariant
            c.wf(),
            p <= q,
            q > p ==> q <= c.t().len(),
            block_items(c.s(), c.t(), q as int, view_stmts(acc@)) == goal,
            wf_stmts(view_stmts(acc@)),
        decreases left(c.t(), q as int),
    {
        if q >= c.toks.len() {
            return Err(Fail { at: q, expected: text("'}'") });
        } else if sym_at(c, q, Sym::RBrace) {
            return Ok((acc, q + 1));
        } else {
            match read_stmt(c, q) {
                Err(e) => {
                    return Err(e);
                },
                Ok((st, q2)) => {
                    proof {
                        lemma_view_stmts_push(acc@, st);
                    }
                    acc.push(st);
                    q = q2;
                },
            }
        }
    }
}

fn read_stmt(c: &Src, p: usize) -> (r: Result<(Spanned<Stmt>, usize), Fail>)
    requires
        c.wf(),
    ensures
        vr_stmt(r) == parse_stmt(c.s(), c.t(), p as int),
        advances(r, p, c.t().len() as int),
        r matches Ok((st, _)) ==> wf_stmt(st.node@),
    decreases left(c.t(), p as int), 8nat,
{
    if p >= c.toks.len() {
        Err(Fail { at: p, expected: text("statement") })
    } else if word_at(c, p, "let") {
        read_let(c, p)
    } else if word_at(c, p, "return") {
        read_return(c, p)
    } else if word_at(c, p, "if") {
        match read_if(c, p) {
            Err(e) => Err(e),
            Ok((node, q)) => Ok((Spanned { node, span: span(c, p, q) }, q)),
        }
    } else if word_at(c, p, "while") {
        read_while(c, p)
    } else if word_at(c, p, "for") {
        read_for(c, p)
    } else if word_at(c, p, "break") {
        if sym_at(c, p + 1, Sym::Semi) {
            Ok((Spanned { node: Stmt::Break, span: span(c, p, p + 2) }, p + 2))
        } else {
            Err(Fail { at: p + 1, expected: text("';'") })
        }
    } else if word_at(c, p, "continue") {
        if sym_at(c, p + 1, Sym::Semi) {
            Ok((Spanned { node: Stmt::Continue, span: span(c, p, p + 2) }, p + 2))
        } else {
            Err(Fail { at: p + 1, expected: text("';'") })
        }
    } else if sym_at(c, p, Sym::LBrace) {
        match read_block(c, p) {
            Err(e) => Err(e),
            Ok((b, q)) => Ok((Spanned { node: Stmt::Block(b), span: span(c, p, q) }, q)),
        }
    } else {
        read_simple(c, p)
    }
}

fn read_let(c: &Src, p: usize) -> (r: Result<(Spanned<Stmt>, usize), Fail>)
    requires
        c.wf(),
        p < c.t().len(),
    ensures
        vr_stmt(r) == stmt_let(c.s(), c.t(), p as int),
        advances(r, p, c.t().len() as int),
        r matches Ok((st, _)) ==> wf_stmt(st.node@),
    decreases left(c.t(), p as int), 6nat,
{
    let m = word_at(c, p + 1, "mut");
    let n = if m {
        p + 2
    } else {
        p + 1
    };
    match ident(c, n) {
        None => Err(Fail { at: n, expected: text("identifier") }),
        Some(name) => if !sym_at(c, n + 1, Sym::Assign) {
            Err(Fail { at: n + 1, expected: text("'='") })
        } else {
            match read_expr(c, n + 2) {
                Err(e) => Err(e),
                Ok((v, q)) => if sym_at(c, q, Sym::Semi) {
                    Ok((Spanned { node: Stmt::Let { is_mut: m, name, value: v }, span: span(c, p, q + 1) }, q + 1))
                } else {
                    Err(Fail { at: q, expected: text("';'") })
                },
            }
        },
    }
}

fn read_return(c: &Src, p: usize) -> (r: Result<(Spanned<Stmt>, usize), Fail>)
    requires
        c.wf(),
        p < c.t().len(),
    ensures
        vr_stmt(r) == stmt_return(c.s(), c.t(), p as int),
        advances(r, p, c.t().len() as int),
        r matches Ok((st, _)) ==> wf_stmt(st.node@),
    decreases left(c.t(), p as int), 6nat,
{
    if sym_at(c, p + 1, Sym::Semi) {
        Ok((Spanned { node: Stmt::Return(None), span: span(c, p, p + 2) }, p + 2))
    } else {
        match read_expr(c, p + 1) {
            Err(e) => Err(e),
            Ok((v, q)) => if sym_at(c, q, Sym::Semi) {
                Ok((Spanned { node: Stmt::Return(Some(v)), span: span(c, p, q + 1) }, q + 1))
            } else {
                Err(Fail { at: q, expected: text("';'") })
            },
        }
    }
}

fn read_if(c: &Src, p: usize) -> (r: Result<(Stmt, usize), Fail>)
    requires
        c.wf(),
        p < c.t().len(),
    ensures
        vr_if(r) == parse_if(c.s(), c.t(), p as int),
        advances(r, p, c.t().len() as int),
        r matches Ok((st, _)) ==> wf_stmt(st@),
    decreases left(c.t(), p as int), 6nat,
{
    match read_expr(c, p + 1) {
        Err(e) => Err(e),
        Ok((cond, q)) => match read_block(c, q) {
            Err(e) => Err(e),
            Ok((b, r)) => match read_else(c, r) {
                Err(e) => Err(e),
                Ok((eb, u)) => Ok((Stmt::If { condition: cond, then_branch: b, else_branch: eb }, u)),
            },
        },
    }
}

spec fn vr_else(r: Result<(Option<Box<Spanned<Stmt>>>, usize), Fail>) -> Result<
    (Option<Box<SSpanned<SStmt>>>, int),
    SFail,
> {
    match r {
        Ok((Some(b), u)) => Ok((Some(Box::new(view_spanned_stmt(*b))), u as int)),
        Ok((None, u)) => Ok((None, u as int)),
        Err(f) => Err(f@),
    }
}

fn read_else(c: &Src, r: usize) -> (res: Result<(Option<Box<Spanned<Stmt>>>, usize), Fail>)
    requires
        c.wf(),
        r <= c.t().len(),
    ensures
        vr_else(res) == else_part(c.s(), c.t(), r as int),
        res matches Ok((_, u)) ==> r <= u <= c.t().len(),
        res matches Ok((Some(b), _)) ==> wf_stmt(b.node@),
    decreases left(c.t(), r as int), 0nat,
{
    if !word_at(c, r, "else") {
        Ok((None, r))
    } else if word_at(c, r + 1, "if") {
        match read_if(c, r + 1) {
            Err(e) => Err(e),
            Ok((n, u)) => {
                let sp = span(c, r + 1, u);
                Ok((Some(Box::new(Spanned { node: n, span: sp })), u))
            },
        }
    } else {
        match read_block(c, r + 1) {
            Err(e) => Err(e),
            Ok((eb, u)) => {
                let sp = span(c, r + 1, u);
                Ok((Some(Box::new(Spanned { node: Stmt::Block(eb), span: sp })), u))
            },
        }
    }
}

fn read_while(c: &Src, p: usize) -> (r: Result<(Spanned<Stmt>, usize), Fail>)
    requires
        c.wf(),
        p < c.t().len(),
    ensures
        vr_stmt(r) == stmt_while(c.s(), c.t(), p as int),
        advances(r, p, c.t().len() as int),
        r matches Ok((st, _)) ==> wf_stmt(st.node@),
    decreases left(c.t(), p as int), 6nat,
{
    match read_expr(c, p + 1) {
        Err(e) => Err(e),
        Ok((cond, q)) => match read_block(c, q) {
            Err(e) => Err(e),
            Ok((b, r)) => Ok((Spanned { node: Stmt::While { condition: cond, body: b }, span: span(c, p, r) }, r)),
        },
    }
}

fn read_for(c: &Src, p: usize) -> (r: Result<(Spanned<Stmt>, usize), Fail>)
    requires
        c.wf(),
        p < c.t().len(),
    ensures
        vr_stmt(r) == stmt_for(c.s(), c.t(), p as int),
        advances(r, p, c.t().len() as int),
        r matches Ok((st, _)) ==> wf_stmt(st.node@),
    decreases left(c.t(), p as int), 6nat,
{
    let m = word_at(c, p + 1, "mut");
    let n = if m {
        p + 2
    } else {
        p + 1
    };
    match ident(c, n) {
        None => Err(Fail { at: n, expected: text("identifier") }),
        Some(item) => if !word_at(c, n + 1, "in") {
            Err(Fail { at: n + 1, expected: text("'in'") })
        } else {
            match read_expr(c, n + 2) {
                Err(e) => Err(e),
                Ok((it, q)) => match read_block(c, q) {
                    Err(e) => Err(e),
                    Ok((b, r)) => Ok(
                        (
                            Spanned {
                                node: Stmt::For { is_mut: m, item_name: item, iterable: it, body: b },
                                span: span(c, p, r),
                            },
                            r,
                        ),
                    ),
                },
            }
        },
    }
}

spec fn view_head(h: Option<(Vec<String>, Option<Expr>, String, usize)>) -> Option<
    (Seq<Seq<char>>, Option<SExpr>, Seq<char>, int),
> {
    match h {
        Some((path, index, op, q)) => Some(
            (
                view_strings(path@),
                match index {
                    Some(i) => Some(i@),
                    None => None,
                },
                op@,
                q as int,
            ),
        ),
        None => None,
    }
}

fn read_assign_head(c: &Src, p: usize) -> (r: Option<(Vec<String>, Option<Expr>, String, usize)>)
    requires
        c.wf(),
    ensures
        view_head(r) == assign_head(c.s(), c.t(), p as int),
        r matches Some((path, _, _, q)) ==> p < q <= c.t().len() && path@.len() > 0,
        r matches Some((_, Some(i), _, _)) ==> wf_expr(i@),
    decreases left(c.t(), p as int), 6nat,
{
    match ident(c, p) {
        None => None,
        Some(x) => {
            let mut first: Vec<String> = Vec::new();
            first.push(x);
            assert(view_strings(first@) =~= seq![x@]);
            let (path, q) = read_path_rest(c, p + 1, first);
            match assign_text(c, q) {
                Some(op) => Some((path, None, op, q + 1)),
                None => if sym_at(c, q, Sym::LBracket) {
                    match read_expr(c, q + 1) {
                        Err(_) => None,
                        Ok((i, r)) => if sym_at(c, r, Sym::RBracket) {
                            match assign_text(c, r + 1) {
                                Some(op) => Some((path, Some(i), op, r + 2)),
                                None => None,
                            }
                        } else {
                            None
                        },
                    }
                } else {
                    None
                },
            }
        },
    }
}

fn read_simple(c: &Src, p: usize) -> (r: Result<(Spanned<Stmt>, usize), Fail>)
    requires
        c.wf(),
        p < c.t().len(),
    ensures
        vr_stmt(r) == stmt_simple(c.s(), c.t(), p as int),
        advances(r, p, c.t().len() as int),
        r matches Ok((st, _)) ==> wf_stmt(st.node@),
    decreases left(c.t(), p as int), 7nat,
{
    match read_assign_head(c, p) {
        Some((path, index, op, q)) => match read_expr(c, q) {
            Err(e) => Err(e),
            Ok((v, r)) => if sym_at(c, r, Sym::Semi) {
                let st = Stmt::Assign(crate::ast::AssignStmt { target_path: path, index, op, value: v });
                Ok((Spanned { node: st, span: span(c, p, r + 1) }, r + 1))
            } else {
                Err(Fail { at: r, expected: text("';'") })
            },
        },
        None => match read_expr(c, p) {
            Err(e) => Err(e),
            Ok((e, q)) => if sym_at(c, q, Sym::Semi) {
                Ok((Spanned { node: Stmt::Expr(e), span: span(c, p, q + 1) }, q + 1))
            } else if sym_at(c, q, Sym::RBrace) {
                Ok((Spanned { node: Stmt::ImplicitReturn(e), span: span(c, p, q) }, q))
            } else {
                Err(Fail { at: q, expected: text("';'") })
            },
        },
    }
}

// ---------------------------------------------------------------------------
// Top-level items
// ---------------------------------------------------------------------------

/// What the items read so far have built.
struct Build {
    nodes: Vec<SgsNode>,
    kind: String,
    name: String,
    components: Vec<String>,
    params: Vec<Param>,
    required: Vec<RequiredComponent>,
    functions: Vec<FunctionDef>,
}

spec fn view_params(s: Seq<Param>) -> Seq<SParam> {
    Seq::new(s.len(), |i: int| view_param(s[i]))
}

spec fn view_requireds(s: Seq<RequiredComponent>) -> Seq<SRequiredComponent> {
    Seq::new(s.len(), |i: int| view_required(s[i]))
}

spec fn view_functions(s: Seq<FunctionDef>) -> Seq<SFunctionDef> {
    Seq::new(s.len(), |i: int| view_function(s[i]))
}

impl View for Build {
    type V = SBuild;

    closed spec fn view(&self) -> SBuild {
        SBuild {
            nodes: view_nodes(self.nodes@),
            kind: self.kind@,
            name: self.name@,
            components: view_strings(self.components@),
            params: view_params(self.params@),
            required: view_requireds(self.required@),
            functions: view_functions(self.functions@),
        }
    }
}

proof fn lemma_view_nodes_push(s: Seq<SgsNode>, x: SgsNode)
    ensures
        view_nodes(s.push(x)) == view_nodes(s).push(x@),
{
    assert(view_nodes(s.push(x)) =~= view_nodes(s).push(x@));
}

impl Build {
    /// The functions gathered and the systems built have well-formed statements.
    spec fn wf(&self) -> bool {
        &&& forall|j: int| 0 <= j < self.functions@.len() ==> wf_stmts(
            view_stmts(#[trigger] self.functions@[j].statements@),
        )
        &&& program_wf(view_nodes(self.nodes@))
    }

    fn new() -> (r: Build)
        ensures
            r@ == empty_build(),
            r.wf(),
    {
        let r = Build {
            nodes: Vec::new(),
            kind: String::new(),
            name: String::new(),
            components: Vec::new(),
            params: Vec::new(),
            required: Vec::new(),
            functions: Vec::new(),
        };
        assert(r@.nodes =~= Seq::<SNode>::empty());
        assert(r@.components =~= Seq::<Seq<char>>::empty());
        assert(r@.params =~= Seq::<SParam>::empty());
        assert(r@.required =~= Seq::<SRequiredComponent>::empty());
        assert(r@.functions =~= Seq::<SFunctionDef>::empty());
        r
    }

    /// Ends the definition under way.
    fn finalize(&mut self)
        requires
            old(self).wf(),
        ensures
            final(self)@ == finalize(old(self)@),
            final(self).wf(),
    {
        if string_is(&self.kind, "Entity") {
            let mut components: Vec<String> = Vec::new();
            std::mem::swap(&mut components, &mut self.components);
            let node = SgsNode::EntityDef(EntityDef { name: self.name.clone(), components });
            proof {
                lemma_view_nodes_push(self.nodes@, node);
            }
            self.nodes.push(node);
            assert(self@.components =~= Seq::<Seq<char>>::empty());
        } else if string_is(&self.kind, "Component") {
            let mut params: Vec<Param> = Vec::new();
            std::mem::swap(&mut params, &mut self.params);
            let node = SgsNode::ComponentDef(ComponentDef { name: self.name.clone(), params });
            proof {
                lemma_view_nodes_push(self.nodes@, node);
            }
            self.nodes.push(node);
            assert(self@.params =~= Seq::<SParam>::empty());
        } else if string_is(&self.kind, "System") {
            let mut required: Vec<RequiredComponent> = Vec::new();
            std::mem::swap(&mut required, &mut self.required);
            let mut functions: Vec<FunctionDef> = Vec::new();
            std::mem::swap(&mut functions, &mut self.functions);
            let node = SgsNode::SystemDef(SystemDef { name: self.name.clone(), required_components: required, functions });
            proof {
                lemma_view_nodes_push(self.nodes@, node);
                assert(node_wf(node@));
            }
            self.nodes.push(node);
            assert(self@.required =~= Seq::<SRequiredComponent>::empty());
            assert(self@.functions =~= Seq::<SFunctionDef>::empty());
        }
    }

    fn annotate(&mut self, key: &String, value: String)
        requires
            old(self).wf(),
        ensures
            final(self)@ == annotate(old(self)@, key@, value@),
            final(self).wf(),
    {
        if string_is(key, "type") {
            self.finalize();
            self.kind = value;
            self.name = String::new();
        } else if string_is(key, "name") {
            self.name = value;
        }
    }
}

spec fn view_field_decls(s: Seq<(String, String)>) -> Seq<(Seq<char>, Seq<char>)> {
    Seq::new(s.len(), |i: int| (s[i].0@, s[i].1@))
}

fn read_field_decls(c: &Src, p: usize, acc: Vec<(String, String)>) -> (r: Result<(Vec<(String, String)>, usize), Fail>)
    requires
        c.wf(),
    ensures
        match r {
            Ok((v, q)) => field_decls(c.s(), c.t(), p as int, view_field_decls(acc@)) == Ok::<
                (Seq<(Seq<char>, Seq<char>)>, int),
                SFail,
            >((view_field_decls(v@), q as int)) && p < q <= c.t().len(),
            Err(f) => field_decls(c.s(), c.t(), p as int, view_field_decls(acc@)) == Err::<
                (Seq<(Seq<char>, Seq<char>)>, int),
                SFail,
            >(f@),
        },
    decreases left(c.t(), p as int),
{
    if p >= c.toks.len() {
        Err(Fail { at: p, expected: text("'}'") })
    } else if sym_at(c, p, Sym::RBrace) {
        Ok((acc, p + 1))
    } else {
        match ident(c, p) {
            None => Err(Fail { at: p, expected: text("field name") }),
            Some(f) => if !sym_at(c, p + 1, Sym::Colon) {
                Err(Fail { at: p + 1, expected: text("':'") })
            } else {
                match read_type(c, p + 2) {
                    Err(e) => Err(e),
                    Ok(q) => {
                        let ty = type_text(c, p + 2, q);
                        let mut acc = acc;
                        let ghost f_v = f@;
                        let ghost ty_v = ty@;
                        let ghost old_acc = acc@;
                        acc.push((f, ty));
                        assert(view_field_decls(acc@) =~= view_field_decls(old_acc).push((f_v, ty_v)));
                        if sym_at(c, q, Sym::Comma) {
                            read_field_decls(c, q + 1, acc)
                        } else if sym_at(c, q, Sym::RBrace) {
                            Ok((acc, q + 1))
                        } else {
                            Err(Fail { at: q, expected: text("',' or '}'") })
                        }
                    },
                }
            },
        }
    }
}

fn read_item_fn(c: &Src, p: usize) -> (r: Result<(FunctionDef, usize), Fail>)
    requires
        c.wf(),
        p < c.t().len(),
    ensures
        match r {
            Ok((f, q)) => item_fn(c.s(), c.t(), p as int) == Ok::<(SFunctionDef, int), SFail>((f@, q as int))
                && p < q <= c.t().len(),
            Err(f) => item_fn(c.s(), c.t(), p as int) == Err::<(SFunctionDef, int), SFail>(f@),
        },
        r matches Ok((f, _)) ==> wf_stmts(view_stmts(f.statements@)),
{
    match ident(c, p + 1) {
        None => Err(Fail { at: p + 1, expected: text("function name") }),
        Some(name) => if !sym_at(c, p + 2, Sym::LParen) {
            Err(Fail { at: p + 2, expected: text("'('") })
        } else {
            match read_param_list(c, p + 3, Sym::RParen) {
                Err(e) => Err(e),
                Ok((params, q)) => if sym_at(c, q, Sym::Arrow) {
                    match read_type(c, q + 1) {
                        Err(e) => Err(e),
                        Ok(r) => match read_block(c, r) {
                            Err(e) => Err(e),
                            Ok((body, u)) => {
                                let rt = return_text(c, q, r);
                                Ok((FunctionDef { name, params, return_ty: Some(rt), statements: body }, u))
                            },
                        },
                    }
                } else {
                    match read_block(c, q) {
                        Err(e) => Err(e),
                        Ok((body, u)) => Ok((FunctionDef { name, params, return_ty: None, statements: body }, u)),
                    }
                },
            }
        },
    }
}

/// Reads the item at `p` into the build; on success, the position after it.
fn read_item(c: &Src, p: usize, b: &mut Build) -> (r: Result<usize, Fail>)
    requires
        c.wf(),
        old(b).wf(),
        p < c.t().len(),
    ensures
        match r {
            Ok(q) => item(c.s(), c.t(), p as int, old(b)@) == Ok::<(SBuild, int), SFail>((final(b)@, q as int))
                && p < q <= c.t().len() && final(b).wf(),
            Err(f) => item(c.s(), c.t(), p as int, old(b)@) == Err::<(SBuild, int), SFail>(f@),
        },
{
    if sym_at(c, p, Sym::At) {
        match ident(c, p + 1) {
            None => Err(Fail { at: p + 1, expected: text("annotation key") }),
            Some(key) => match ident(c, p + 2) {
                None => Err(Fail { at: p + 2, expected: text("annotation value") }),
                Some(value) => if sym_at(c, p + 3, Sym::Semi) {
                    b.annotate(&key, value);
                    Ok(p + 4)
                } else {
                    Err(Fail { at: p + 3, expected: text("';'") })
                },
            },
        }
    } else if word_at(c, p, "mount") {
        match ident(c, p + 1) {
            None => Err(Fail { at: p + 1, expected: text("component name") }),
            Some(x) => if sym_at(c, p + 2, Sym::Semi) {
                proof {
                    lemma_view_strings_push(b.components@, x);
                }
                b.components.push(x);
                Ok(p + 3)
            } else {
                Err(Fail { at: p + 2, expected: text("';'") })
            },
        }
    } else if word_at(c, p, "param") {
        match ident(c, p + 1) {
            None => Err(Fail { at: p + 1, expected: text("parameter name") }),
            Some(x) => if !sym_at(c, p + 2, Sym::Colon) {
                Err(Fail { at: p + 2, expected: text("':'") })
            } else {
                match read_type(c, p + 3) {
                    Err(e) => Err(e),
                    Ok(q) => if sym_at(c, q, Sym::Semi) {
                        let ty = slice(c, p + 3, q);
                        let prm = Param { name: x, ty };
                        let ghost old_ps = b.params@;
                        b.params.push(prm);
                        assert(view_params(b.params@) =~= view_params(old_ps).push(view_param(prm)));
                        Ok(q + 1)
                    } else {
                        Err(Fail { at: q, expected: text("';'") })
                    },
                }
            },
        }
    } else if word_at(c, p, "require") {
        let m = word_at(c, p + 1, "mut");
        let n = if m {
            p + 2
        } else {
            p + 1
        };
        match ident(c, n) {
            None => Err(Fail { at: n, expected: text("component name") }),
            Some(x) => if sym_at(c, n + 1, Sym::Semi) {
                let rq = RequiredComponent { is_mut: m, name: x };
                let ghost old_rs = b.required@;
                b.required.push(rq);
                assert(view_requireds(b.required@) =~= view_requireds(old_rs).push(view_required(rq)));
                Ok(n + 2)
            } else {
                Err(Fail { at: n + 1, expected: text("';'") })
            },
        }
    } else if word_at(c, p, "fn") {
        match read_item_fn(c, p) {
            Err(e) => Err(e),
            Ok((f, q)) => {
                let ghost old_fs = b.functions@;
                let ghost fv = view_function(f);
                b.functions.push(f);
                assert(b.functions@[b.functions@.len() - 1] == f);
                assert(view_functions(b.functions@) =~= view_functions(old_fs).push(fv));
                Ok(q)
            },
        }
    } else if word_at(c, p, "struct") {
        match ident(c, p + 1) {
            None => Err(Fail { at: p + 1, expected: text("struct name") }),
            Some(x) => if !sym_at(c, p + 2, Sym::LBrace) {
                Err(Fail { at: p + 2, expected: text("'{'") })
            } else {
                let v: Vec<(String, String)> = Vec::new();
                assert(view_field_decls(v@) =~= Seq::<(Seq<char>, Seq<char>)>::empty());
                match read_field_decls(c, p + 3, v) {
                    Err(e) => Err(e),
                    Ok((fields, q)) => {
                        let node = SgsNode::StructDef(StructDef { name: x, fields });
                        proof {
                            lemma_view_nodes_push(b.nodes@, node);
                            assert(node_wf(node@));
                        }
                        b.nodes.push(node);
                        Ok(q)
                    },
                }
            },
        }
    } else {
        Err(Fail { at: p, expected: text("a top-level item") })
    }
}

fn read_items(c: &Src) -> (r: Result<Vec<SgsNode>, Fail>)
    requires
        c.wf(),
    ensures
        match r {
            Ok(v) => items(c.s(), c.t(), 0, empty_build()) == Ok::<Seq<SNode>, SFail>(view_nodes(v@))
                && program_wf(view_nodes(v@)),
            Err(f) => items(c.s(), c.t(), 0, empty_build()) == Err::<Seq<SNode>, SFail>(f@),
        },
{
    let mut b = Build::new();
    let mut p: usize = 0;
    proof {
        lemma_toks_len(c);
    }
    while p < c.toks.len()
        invariant
            c.wf(),
            c.t().len() == c.toks@.len(),
            p <= c.t().len(),
            items(c.s(), c.t(), 0, empty_build()) == items(c.s(), c.t(), p as int, b@),
            b.wf(),
        decreases c.t().len() - p,
    {
        match read_item(c, p, &mut b) {
            Err(e) => {
                return Err(e);
            },
            Ok(q) => {
                p = q;
            },
        }
    }
    b.finalize();
    Ok(b.nodes)
}

/// Where and why a text is not a program: the byte offset at which reading
/// failed and what was expected there.
#[derive(Debug)]
pub struct ParseError {
    pub pos: usize,
    pub expected: String,
}

/// Reads a program: its entity, component, system and struct definitions in
/// the order in which they end, or where and why the text is not a program.
pub fn parse_program(source: &str) -> (r: Result<Vec<SgsNode>, ParseError>)
    ensures
        match r {
            Ok(nodes) => parse_spec(source@) == Ok::<Seq<SNode>, (usize, Seq<char>)>(view_nodes(nodes@))
                && program_wf(view_nodes(nodes@)),
            Err(e) => parse_spec(source@) == Err::<Seq<SNode>, (usize, Seq<char>)>((e.pos, e.expected@)),
        },
{
    let nbytes = source.as_bytes().len();
    let chars = chars_of(source);
    let offs = offsets(&chars, nbytes);
    match lex(&chars) {
        Err(e) => {
            let pos = offs[e.pos];
            Err(ParseError { pos, expected: e.expected })
        },
        Ok(toks) => {
            let _nt = toks.len();
            let _nc = chars.len();
            proof {
                lemma_lex_from_ordered(chars@, 0, Mode::Code);
            }
            let c = Src { chars, toks, offs };
            match read_items(&c) {
                Ok(nodes) => Ok(nodes),
                Err(f) => {
                    proof {
                        lemma_toks_len(&c);
                        if f.at < c.toks@.len() {
                            lemma_tok(&c, f.at as int);
                        }
                    }
                    let pos = if f.at < c.toks.len() {
                        c.offs[c.toks[f.at].start]
                    } else {
                        c.offs[c.chars.len()]
                    };
                    Err(ParseError { pos, expected: f.expected })
                },
            }
        },
    }
}

} // verus!

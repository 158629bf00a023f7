//! The static analyzer: scopes, mutability, and the types of expressions.
//!
//! Every public method states its effect as the typing rules of
//! [`crate::typing`] applied to the analyzer's model.
use crate::ast::{
    AssignStmt, lemma_sspanned_parts, view_spanned_stmt, Expr, FnParam, FunctionDef, SExpr, SFnParam, SFunctionDef, SSpanned, SStmt, Span, Spanned, Stmt,
    StructDef, SystemDef, view_expr, view_exprs, view_fields, view_fn_params, view_function, view_opt_string,
    view_stmt, view_stmts, view_strings, wf_expr, wf_exprs, wf_stmt, wf_stmts, lemma_expr_parts, lemma_sexpr_parts, lemma_view_expr, lemma_view_stmt, lemma_wf_expr, lemma_wf_stmt, lemma_wf_exprs_at, lemma_wf_stmts_at, lemma_view_fields_at, lemma_view_exprs_at, lemma_view_stmts_at,
    lemma_stmt_parts, lemma_sstmt_parts,
};
use crate::text::{push_u128, push_usize, quote, str_eq, string_is, text, nat_text};
pub use crate::types::Type;
use crate::types::{SType, Table, bind, lemma_view_type, lemma_view_types_at, view_type, lemma_lookup_bind, lookup, type_of_name, type_text, view_types};
use crate::typing::{
    AModel, SError, SSymbol, SWarning, arity_error, argument_error, check, check_args, check_assign,
    check_condition, check_missing, check_seq, clash, given_names, infer, infer_binary, infer_call,
    infer_given_fields, infer_items, infer_method, infer_seq, method_len, method_push, method_pop, method_slice,
    method_remove, method_insert, method_clear, method_of_program, infer_struct, is_arith_op, is_eq_op, is_rel_op,
    loop_nesting, lemma_nesting_at, msg1, msg2, msg3, nesting_seq, no_method, not_number, plain, resolve, verify_return,
    walk_assign, walk_read, warn_if_iterated, warned_root, frame,
};
use vstd::prelude::*;
use vstd::string::*;

verus! {

broadcast use vstd::seq::group_seq_axioms;

/// A variable known to the analyzer.
#[derive(Debug)]
pub struct Symbol {
    pub is_mut: bool,
    pub ty: Type,
    pub decl_span: Span,
}

impl View for Symbol {
    type V = SSymbol;

    open spec fn view(&self) -> SSymbol {
        SSymbol { is_mut: self.is_mut, ty: self.ty@, decl_span: self.decl_span }
    }
}

/// A diagnostic that stops a program from running: a title, a message, where
/// it applies, and optionally a note pointing elsewhere.
#[derive(Debug)]
pub struct StaticCheckError {
    pub title: String,
    pub message: String,
    pub span: Span,
    pub note: Option<(String, Span)>,
}

impl View for StaticCheckError {
    type V = SError;

    open spec fn view(&self) -> SError {
        SError {
            title: self.title@,
            message: self.message@,
            span: self.span,
            note: match self.note {
                Some(n) => Some((n.0@, n.1)),
                None => None,
            },
        }
    }
}

impl StaticCheckError {
    pub fn new(title: String, message: String, span: Span) -> (r: Self)
        ensures
            r@ == plain(title@, message@, span),
    {
        StaticCheckError { title, message, span, note: None }
    }

    /// The same error with a note attached.
    pub fn with_note(self, msg: String, span: Span) -> (r: Self)
        ensures
            r@ == (SError { note: Some((msg@, span)), ..self@ }),
    {
        let mut s = self;
        s.note = Some((msg, span));
        s
    }
}

/// A diagnostic about a likely mistake that does not stop the program.
#[derive(Debug)]
pub struct StaticCheckWarning {
    pub title: String,
    pub message: String,
    pub span: Span,
}

impl View for StaticCheckWarning {
    type V = SWarning;

    open spec fn view(&self) -> SWarning {
        SWarning { title: self.title@, message: self.message@, span: self.span }
    }
}

impl StaticCheckWarning {
    pub fn new(title: String, message: String, span: Span) -> (r: Self)
        ensures
            r@ == (SWarning { title: title@, message: message@, span }),
    {
        StaticCheckWarning { title, message, span }
    }
}

/// The static analyzer.
pub struct Analyzer {
    /// Nested scopes, innermost last.
    pub scopes: Vec<Table<Symbol>>,
    pub errors: Vec<StaticCheckError>,
    pub warnings: Vec<StaticCheckWarning>,
    /// The declared return type of the function being checked.
    pub current_return_ty: Option<Type>,
    /// How many loops enclose the statement being checked.
    pub loop_depth: usize,
    /// The arrays iterated by the enclosing `for` loops, innermost last.
    pub iterating_vars: Vec<String>,
    /// The declared structs, each with its fields and their types.
    pub struct_defs: Table<Table<Type>>,
}

impl View for Analyzer {
    type V = AModel;

    open spec fn view(&self) -> AModel {
        AModel {
            scopes: Seq::new(self.scopes@.len(), |i: int| self.scopes@[i]@),
            errors: Seq::new(self.errors@.len(), |i: int| self.errors@[i]@),
            warnings: Seq::new(self.warnings@.len(), |i: int| self.warnings@[i]@),
            return_ty: match self.current_return_ty {
                Some(t) => Some(t@),
                None => None,
            },
            loop_depth: self.loop_depth as nat,
            iterating: view_strings(self.iterating_vars@),
            structs: self.struct_defs@,
        }
    }
}

/// The type a function declares it returns: `void` when it declares none.
pub open spec fn return_type(r: Option<Seq<char>>) -> SType {
    match r {
        Some(t) => type_of_name(t),
        None => SType::Void,
    }
}

/// The types of a list of parameters.
pub open spec fn param_types(ps: Seq<SFnParam>) -> Seq<SType> {
    Seq::new(ps.len(), |i: int| type_of_name(ps[i].ty))
}

/// The state after binding each parameter of a function in the innermost scope.
pub open spec fn define_params(m: AModel, ps: Seq<SFnParam>) -> AModel
    decreases ps.len(),
{
    if ps.len() == 0 {
        m
    } else {
        let p = ps.last();
        define_params(m, ps.drop_last()).define(p.name, p.is_mut, type_of_name(p.ty), 0..0)
    }
}

/// The state after checking a function: its parameters are bound in a new
/// scope, which is gone again at the end.
pub open spec fn check_function_spec(m: AModel, f: SFunctionDef) -> AModel {
    let m1 = AModel { return_ty: Some(return_type(f.return_ty)), ..m.push_scope() };
    check_seq(define_params(m1, f.params), f.statements).pop_scope()
}

/// The type a system function has for callers.
pub open spec fn function_type(f: SFunctionDef) -> SType {
    SType::Function { params: param_types(f.params), ret: Box::new(return_type(f.return_ty)) }
}

/// The state after binding each function of a system in the innermost scope.
pub open spec fn define_functions(m: AModel, fs: Seq<SFunctionDef>) -> AModel
    decreases fs.len(),
{
    if fs.len() == 0 {
        m
    } else {
        define_functions(m, fs.drop_last()).define(fs.last().name, false, function_type(fs.last()), 0..0)
    }
}

/// The builtin printing functions, bound in the outermost scope.
pub open spec fn with_builtins(m: AModel) -> AModel {
    let b = SSymbol { is_mut: false, ty: SType::Any, decl_span: 0..0 };
    AModel { scopes: m.scopes.update(0, bind(bind(m.scopes[0], "println"@, b), "print"@, b)), ..m }
}

/// Declaring functions binds them in the innermost scope and leaves the
/// outermost scope's other names as they were, as long as there are inner scopes
/// or no function takes the name.
proof fn lemma_define_functions_keeps(m: AModel, fs: Seq<SFunctionDef>, name: Seq<char>)
    requires
        m.scopes.len() >= 1,
        m.scopes.len() > 1 || forall|i: int| 0 <= i < fs.len() ==> #[trigger] fs[i].name != name,
    ensures
        define_functions(m, fs).scopes.len() == m.scopes.len(),
        lookup(define_functions(m, fs).scopes[0], name) == lookup(m.scopes[0], name),
    decreases fs.len(),
{
    if fs.len() > 0 {
        let d = define_functions(m, fs.drop_last());
        assert forall|i: int| 0 <= i < fs.drop_last().len() implies #[trigger] fs.drop_last()[i].name != name || m.scopes.len() > 1 by {
            if m.scopes.len() == 1 {
                assert(fs[i].name != name);
            }
        }
        lemma_define_functions_keeps(m, fs.drop_last(), name);
        let f = fs.last();
        let last = d.scopes.len() - 1;
        if last == 0 {
            assert(fs[fs.len() - 1].name != name);
            lemma_lookup_bind(
                d.scopes[0],
                f.name,
                SSymbol { is_mut: false, ty: function_type(f), decl_span: 0..0 },
                name,
            );
        }
    }
}

/// After the builtins are bound and the functions declared, `println` and
/// `print` each name a non-mutable symbol of type `any` in the outermost scope,
/// unless a function of the same name was declared there; with one scope they
/// resolve to it.
pub proof fn law_builtins_bound(m: AModel, fs: Seq<SFunctionDef>)
    requires
        m.scopes.len() >= 1,
    ensures
        ({
            let r = define_functions(with_builtins(m), fs);
            let b = SSymbol { is_mut: false, ty: SType::Any, decl_span: 0..0 };
            &&& (m.scopes.len() > 1 || forall|i: int| 0 <= i < fs.len() ==> #[trigger] fs[i].name != "println"@)
                ==> lookup(r.scopes[0], "println"@) == Some(b)
            &&& (m.scopes.len() > 1 || forall|i: int| 0 <= i < fs.len() ==> #[trigger] fs[i].name != "print"@)
                ==> lookup(r.scopes[0], "print"@) == Some(b)
            &&& (m.scopes.len() == 1 && forall|i: int| 0 <= i < fs.len() ==> #[trigger] fs[i].name != "println"@)
                ==> resolve(r.scopes, "println"@) == Some(b)
            &&& (m.scopes.len() == 1 && forall|i: int| 0 <= i < fs.len() ==> #[trigger] fs[i].name != "print"@)
                ==> resolve(r.scopes, "print"@) == Some(b)
        }),
{
    let w = with_builtins(m);
    let r = define_functions(w, fs);
    let b = SSymbol { is_mut: false, ty: SType::Any, decl_span: 0..0 };
    assert("println"@ != "print"@) by {
        reveal_strlit("println");
        reveal_strlit("print");
        assert("println"@.len() != "print"@.len());
    }
    lemma_lookup_bind(m.scopes[0], "println"@, b, "println"@);
    lemma_lookup_bind(bind(m.scopes[0], "println"@, b), "print"@, b, "println"@);
    lemma_lookup_bind(bind(m.scopes[0], "println"@, b), "print"@, b, "print"@);
    assert(lookup(w.scopes[0], "println"@) == Some(b));
    assert(lookup(w.scopes[0], "print"@) == Some(b));
    if m.scopes.len() > 1 || forall|i: int| 0 <= i < fs.len() ==> #[trigger] fs[i].name != "println"@ {
        lemma_define_functions_keeps(w, fs, "println"@);
        if m.scopes.len() == 1 {
            assert(r.scopes.drop_last().len() == 0);
        }
    }
    if m.scopes.len() > 1 || forall|i: int| 0 <= i < fs.len() ==> #[trigger] fs[i].name != "print"@ {
        lemma_define_functions_keeps(w, fs, "print"@);
        if m.scopes.len() == 1 {
            assert(r.scopes.drop_last().len() == 0);
        }
    }
}

/// The fields table of a struct: each field bound to the type its annotation names.
pub open spec fn field_table(fields: Seq<(Seq<char>, Seq<char>)>) -> Seq<(Seq<char>, SType)>
    decreases fields.len(),
{
    if fields.len() == 0 {
        Seq::empty()
    } else {
        bind(field_table(fields.drop_last()), fields.last().0, type_of_name(fields.last().1))
    }
}

impl Default for Analyzer {
    /// The same as [`Analyzer::new`].
    fn default() -> (r: Self)
        ensures
            r.wf(),
            r@ == (AModel {
                scopes: seq![Seq::empty()],
                errors: Seq::empty(),
                warnings: Seq::empty(),
                return_ty: None,
                loop_depth: 0,
                iterating: Seq::empty(),
                structs: Seq::empty(),
            }),
    {
        Analyzer::new()
    }
}

fn cat2(a: &str, x: &String, b: &str, y: &String, c: &str) -> (r: String)
    ensures
        r@ == msg2(a@, x@, b@, y@, c@),
{
    let mut r = a.to_owned();
    r.append(x.as_str());
    r.append(b);
    r.append(y.as_str());
    r.append(c);
    r
}

fn cat3(a: &str, x: &String, b: &str, y: &String, c: &str, z: &String, d: &str) -> (r: String)
    ensures
        r@ == msg3(a@, x@, b@, y@, c@, z@, d@),
{
    let mut r = cat2(a, x, b, y, c);
    r.append(z.as_str());
    r.append(d);
    r
}

fn span_copy(s: &Span) -> (r: Span)
    ensures
        r == *s,
{
    s.start..s.end
}

impl Analyzer {
    /// The analyzer's invariant: there is always an innermost scope.
    pub open spec fn wf(&self) -> bool {
        self.scopes@.len() >= 1
    }

    /// An analyzer with one empty scope and no diagnostics.
    pub fn new() -> (r: Self)
        ensures
            r.wf(),
            r@ == (AModel {
                scopes: seq![Seq::empty()],
                errors: Seq::empty(),
                warnings: Seq::empty(),
                return_ty: None,
                loop_depth: 0,
                iterating: Seq::empty(),
                structs: Seq::empty(),
            }),
    {
        let mut scopes = Vec::new();
        scopes.push(Table::new());
        let r = Analyzer {
            scopes,
            errors: Vec::new(),
            warnings: Vec::new(),
            current_return_ty: None,
            loop_depth: 0,
            iterating_vars: Vec::new(),
            struct_defs: Table::new(),
        };
        assert(r@.scopes =~= seq![Seq::<(Seq<char>, SSymbol)>::empty()]);
        assert(r@.errors =~= Seq::<SError>::empty());
        assert(r@.warnings =~= Seq::<SWarning>::empty());
        assert(r@.iterating =~= Seq::<Seq<char>>::empty());
        r
    }

    fn err(&mut self, e: StaticCheckError)
        ensures
            final(self)@ == old(self)@.err(e@),
            final(self).scopes == old(self).scopes,
    {
        self.errors.push(e);
        assert(self@.errors =~= old(self)@.errors.push(e@));
    }

    fn error(&mut self, title: &str, message: String, span: &Span)
        ensures
            final(self)@ == old(self)@.err(plain(title@, message@, *span)),
            final(self).scopes == old(self).scopes,
    {
        self.err(StaticCheckError::new(text(title), message, span_copy(span)));
    }

    fn warn(&mut self, title: &str, message: String, span: &Span)
        ensures
            final(self)@ == old(self)@.warn(SWarning { title: title@, message: message@, span: *span }),
            final(self).scopes == old(self).scopes,
    {
        self.warnings.push(StaticCheckWarning::new(text(title), message, span_copy(span)));
        assert(self@.warnings =~= old(self)@.warnings.push(
            SWarning { title: title@, message: message@, span: *span },
        ));
    }

    fn push_scope(&mut self)
        ensures
            final(self)@ == old(self)@.push_scope(),
            final(self).scopes@.len() == old(self).scopes@.len() + 1,
    {
        self.scopes.push(Table::new());
        assert(self@.scopes =~= old(self)@.scopes.push(Seq::empty()));
    }

    fn pop_scope(&mut self)
        ensures
            final(self)@ == old(self)@.pop_scope(),
            final(self).scopes@.len() == if old(self).scopes@.len() == 0 {
                0
            } else {
                old(self).scopes@.len() - 1
            },
    {
        if self.scopes.len() > 0 {
            self.scopes.pop();
            assert(self@.scopes =~= old(self)@.scopes.drop_last());
        }
    }

    /// Binds `name` in the innermost scope.
    pub fn define_var(&mut self, name: String, is_mut: bool, ty: Type, span: &Span)
        requires
            old(self).wf(),
        ensures
            final(self).wf(),
            final(self)@ == old(self)@.define(name@, is_mut, ty@, *span),
    {
        let last = self.scopes.len() - 1;
        let ghost sym = SSymbol { is_mut, ty: ty@, decl_span: *span };
        let mut scope = self.scopes.remove(last);
        scope.insert(name, Symbol { is_mut, ty, decl_span: span_copy(span) });
        self.scopes.push(scope);
        assert(self@.scopes =~= old(self)@.scopes.update(last as int, bind(old(self)@.scopes[last as int], name@, sym)));
    }

    /// The variable a name refers to, searching the scopes from the innermost.
    fn resolve_var(&self, name: &str) -> (r: Option<&Symbol>)
        ensures
            match r {
                Some(s) => resolve(self@.scopes, name@) == Some(s@),
                None => resolve(self@.scopes, name@) is None,
            },
    {
        let mut i = self.scopes.len();
        assert(self@.scopes.take(i as int) =~= self@.scopes);
        while i > 0
            invariant
                0 <= i <= self.scopes@.len(),
                resolve(self@.scopes, name@) == resolve(self@.scopes.take(i as int), name@),
            decreases i,
        {
            let ghost t = self@.scopes.take(i as int);
            assert(t.last() == self.scopes@[i - 1]@);
            match self.scopes[i - 1].get(name) {
                Some(s) => {
                    return Some(s);
                },
                None => {},
            }
            assert(t.drop_last() =~= self@.scopes.take(i - 1));
            i = i - 1;
        }
        None
    }

    /// Whether an array is being iterated by an enclosing `for` loop.
    fn is_iterating(&self, name: &String) -> (r: bool)
        ensures
            r == self@.iterating.contains(name@),
    {
        let mut i: usize = 0;
        while i < self.iterating_vars.len()
            invariant
                0 <= i <= self.iterating_vars@.len(),
                forall|j: int| 0 <= j < i ==> self@.iterating[j] != name@,
            decreases self.iterating_vars@.len() - i,
        {
            if self.iterating_vars[i] == *name {
                assert(self@.iterating[i as int] == name@);
                return true;
            }
            i = i + 1;
        }
        false
    }
}

impl Type {
    fn is_unknown(&self) -> (r: bool)
        ensures
            r == (self@ == SType::Unknown),
    {
        match self {
            Type::Unknown => true,
            _ => false,
        }
    }

    fn is_number(&self) -> (r: bool)
        ensures
            r == (self@ == SType::Number),
    {
        match self {
            Type::Number => true,
            _ => false,
        }
    }

    fn is_string(&self) -> (r: bool)
        ensures
            r == (self@ == SType::String),
    {
        match self {
            Type::String => true,
            _ => false,
        }
    }

    fn is_bool(&self) -> (r: bool)
        ensures
            r == (self@ == SType::Bool),
    {
        match self {
            Type::Bool => true,
            _ => false,
        }
    }

    fn is_any(&self) -> (r: bool)
        ensures
            r == (self@ == SType::Any),
    {
        match self {
            Type::Any => true,
            _ => false,
        }
    }
}

/// Whether the types of a value and of its destination clash.
fn clashes(actual: &Type, expected: &Type) -> (r: bool)
    ensures
        r == clash(actual@, expected@),
{
    !actual.is_unknown() && !expected.is_unknown() && !actual.same(expected)
}

fn arity_err(expected: u128, given: u128, sp: &Span) -> (r: StaticCheckError)
    ensures
        r@ == arity_error(expected as nat, given as nat, *sp),
{
    let mut m = text("函数需要 ");
    push_u128(&mut m, expected);
    m.append(" 个参数，但传入了 ");
    push_u128(&mut m, given);
    m.append(" 个");
    let r = StaticCheckError::new(text("参数数量错误"), m, span_copy(sp));
    assert(r@.message =~= arity_error(expected as nat, given as nat, *sp).message);
    r
}

fn argument_err(number: usize, expected: &Type, actual: &Type, sp: &Span) -> (r: StaticCheckError)
    ensures
        r@ == argument_error(number as nat, expected@, actual@, *sp),
{
    let mut m = text("第 ");
    push_usize(&mut m, number);
    m.append(" 个参数应该是 '");
    expected.push_text(&mut m);
    m.append("'，但传入了 '");
    actual.push_text(&mut m);
    m.append("'");
    let r = StaticCheckError::new(text("参数类型错误"), m, span_copy(sp));
    assert(r@.message =~= argument_error(number as nat, expected@, actual@, *sp).message);
    r
}

/// A copy of a struct's field table.
fn copy_fields(t: &Table<Type>) -> (r: Table<Type>)
    ensures
        r@ == t@,
{
    let mut entries: Vec<(String, Type)> = Vec::new();
    let mut i: usize = 0;
    while i < t.entries.len()
        invariant
            0 <= i <= t.entries@.len(),
            entries@.len() == i,
            forall|j: int| 0 <= j < i ==> entries@[j].0@ == t.entries@[j].0@ && entries@[j].1@ == t.entries@[j].1@,
        decreases t.entries@.len() - i,
    {
        entries.push((t.entries[i].0.clone(), t.entries[i].1.copy()));
        i = i + 1;
    }
    let r = Table { entries };
    assert(r@ =~= t@);
    r
}

impl Analyzer {
    /// The type of an expression. Each diagnostic the typing rules raise on
    /// the way is appended to `errors` or `warnings`, located at `fallback_span`.
    pub fn infer_expr(&mut self, expr: &Expr, fallback_span: &Span) -> (r: Type)
        requires
            wf_expr(expr@),
        ensures
            (final(self)@, r@) == infer(old(self)@, expr@, *fallback_span),
            frame(old(self)@, final(self)@),
        decreases expr, 3int,
    {
        proof {
            lemma_view_expr(*expr);
            lemma_sexpr_parts(expr@);
            lemma_wf_expr(expr@);
        }
        match expr {
            Expr::Number(_) => Type::Number,
            Expr::StringLit(_) => Type::String,
            Expr::StringInterp(parts) => {
                self.infer_all(parts, fallback_span);
                Type::String
            },
            Expr::Path(_) => self.infer_path(expr, fallback_span),
            Expr::Bool(_) => Type::Bool,
            Expr::Array(_) => self.infer_array(expr, fallback_span),
            Expr::Index { .. } => self.infer_index(expr, fallback_span),
            Expr::BinaryOp { .. } => self.infer_binary_op(expr, fallback_span),
            Expr::Call { .. } => self.infer_call_expr(expr, fallback_span),
            Expr::MethodCall { .. } => self.infer_method_call(expr, fallback_span),
            Expr::StructInit { .. } => self.infer_struct_init(expr, fallback_span),
            _ => Type::Unknown,
        }
    }

    /// Infers each expression of a list in turn.
    #[verifier::loop_isolation(false)]
    fn infer_all(&mut self, es: &Vec<Expr>, sp: &Span)
        requires
            wf_exprs(view_exprs(es@)),
        ensures
            final(self)@ == infer_seq(old(self)@, view_exprs(es@), *sp),
            frame(old(self)@, final(self)@),
        decreases es, 0int,
    {
        let ghost v = view_exprs(es@);
        let mut i: usize = 0;
        assert(v.take(0) =~= Seq::<SExpr>::empty());
        while i < es.len()
            invariant
                0 <= i <= es@.len(),
                self@ == infer_seq(old(self)@, v.take(i as int), *sp),
                frame(old(self)@, self@),
            decreases es@.len() - i,
        {
            proof { lemma_wf_exprs_at(v, i as int); }
            assert(v[i as int] == es@[i as int]@);
            assert(decreases_to!(es => es@));
            assert(decreases_to!(es@ => es@[i as int]));
            self.infer_expr(&es[i], sp);
            assert(v.take(i + 1).drop_last() =~= v.take(i as int));
            i = i + 1;
        }
        assert(v.take(es@.len() as int) =~= v);
    }

    #[verifier::loop_isolation(false)]
    fn infer_path(&mut self, expr: &Expr, sp: &Span) -> (r: Type)
        requires
            expr is Path,
            wf_expr(expr@),
        ensures
            (final(self)@, r@) == infer(old(self)@, expr@, *sp),
            frame(old(self)@, final(self)@),
        decreases expr, 2int,
    {
        proof {
            lemma_view_expr(*expr);
            lemma_sexpr_parts(expr@);
            lemma_wf_expr(expr@);
        }
        match expr {
            Expr::Path(path) => {
                let ghost p = view_strings(path@);
                assert(p[0] == path@[0]@);
                let start = match self.resolve_var(path[0].as_str()) {
                    Some(sym) => sym.ty.copy(),
                    None => {
                        self.error("变量未定义", quote("找不到变量: '", &path[0], "'"), sp);
                        return Type::Unknown;
                    },
                };
                let ghost m0 = self@;
                let mut cur = start;
                let mut i: usize = 1;
                assert(p.skip(1) =~= p.drop_first());
                while i < path.len()
                    invariant
                        1 <= i <= path@.len(),
                        walk_read(m0, start@, p.drop_first(), *sp) == walk_read(self@, cur@, p.skip(i as int), *sp),
                        frame(m0, self@),
                        frame(old(self)@, self@),
                    decreases path@.len() - i,
                {
                    let ghost fields = p.skip(i as int);
                    assert(fields[0] == path@[i as int]@);
                    assert(fields.drop_first() =~= p.skip(i + 1));
                    let next: Result<Type, bool> = match &cur {
                        Type::Struct(sn) => match self.struct_defs.get(sn.as_str()) {
                            Some(fm) => match fm.get(path[i].as_str()) {
                                Some(ft) => Ok(ft.copy()),
                                None => Err(true),
                            },
                            None => Err(false),
                        },
                        _ => Err(true),
                    };
                    match next {
                        Ok(t) => {
                            cur = t;
                        },
                        Err(report) => {
                            if report {
                                match &cur {
                                    Type::Struct(sn) => {
                                        self.error(
                                            "字段不存在",
                                            cat2("结构体 '", sn, "' 没有 '", &path[i], "' 字段"),
                                            sp,
                                        );
                                    },
                                    _ => {
                                        self.error(
                                            "属性读取错误",
                                            cat2("无法读取 '", &cur.to_string(), "' 上的属性 '.", &path[i], "'，因为它不是结构体"),
                                            sp,
                                        );
                                    },
                                }
                            }
                            return Type::Unknown;
                        },
                    }
                    i = i + 1;
                }
                cur
            },
            _ => Type::Unknown,
        }
    }

    #[verifier::loop_isolation(false)]
    fn infer_array(&mut self, expr: &Expr, sp: &Span) -> (r: Type)
        requires
            expr is Array,
            wf_expr(expr@),
        ensures
            (final(self)@, r@) == infer(old(self)@, expr@, *sp),
            frame(old(self)@, final(self)@),
        decreases expr, 2int,
    {
        proof {
            lemma_view_expr(*expr);
            lemma_sexpr_parts(expr@);
            lemma_wf_expr(expr@);
        }
        match expr {
            Expr::Array(items) => {
                if items.len() == 0 {
                    let any = Type::Any;
                    assert(any@ == SType::Any);
                    assert(view_exprs(items@).len() == 0);
                    return Type::Array(Box::new(any));
                }
                let ghost v = view_exprs(items@);
                proof { lemma_wf_exprs_at(v, 0); }
                assert(v[0] == items@[0]@);
                let first = self.infer_expr(&items[0], sp);
                let ghost m1 = self@;
                let ghost d = v.drop_first();
                let mut i: usize = 1;
                assert(d.take(0) =~= Seq::<SExpr>::empty());
                while i < items.len()
                    invariant
                        1 <= i <= items@.len(),
                        self@ == infer_items(m1, d.take(i - 1), first@, *sp),
                        frame(old(self)@, self@),
                    decreases items@.len() - i,
                {
                    proof { lemma_wf_exprs_at(v, i as int); }
                    assert(d[i - 1] == items@[i as int]@);
                    assert(decreases_to!(items => items@));
                    assert(decreases_to!(items@ => items@[i as int]));
                    let t = self.infer_expr(&items[i], sp);
                    if !t.is_unknown() && !t.same(&first) {
                        self.error(
                            "数组类型不一致",
                            cat2("数组元素类型必须统一，期待 '", &first.to_string(), "'，但得到了 '", &t.to_string(), "'"),
                            sp,
                        );
                    }
                    assert(d.take(i as int).drop_last() =~= d.take(i - 1));
                    i = i + 1;
                }
                assert(d.take(items@.len() - 1) =~= d);
                Type::Array(Box::new(first))
            },
            _ => Type::Unknown,
        }
    }

    fn infer_index(&mut self, expr: &Expr, sp: &Span) -> (r: Type)
        requires
            expr is Index,
            wf_expr(expr@),
        ensures
            (final(self)@, r@) == infer(old(self)@, expr@, *sp),
            frame(old(self)@, final(self)@),
        decreases expr, 2int,
    {
        proof {
            lemma_view_expr(*expr);
            lemma_sexpr_parts(expr@);
            lemma_wf_expr(expr@);
        }
        match expr {
            Expr::Index { target, index } => {
                let tt = self.infer_expr(target, sp);
                let it = self.infer_expr(index, sp);
                if !it.is_unknown() && !it.is_number() {
                    self.error("索引错误", text("数组的索引必须是 'number' 类型"), sp);
                }
                match tt {
                    Type::Array(inner) => *inner,
                    _ => {
                        if !tt.is_unknown() {
                            self.error("类型错误", quote("只能对数组类型进行索引访问，但得到了 '", &tt.to_string(), "'"), sp);
                        }
                        Type::Unknown
                    },
                }
            },
            _ => Type::Unknown,
        }
    }

    fn infer_binary_op(&mut self, expr: &Expr, sp: &Span) -> (r: Type)
        requires
            expr is BinaryOp,
            wf_expr(expr@),
        ensures
            (final(self)@, r@) == infer_binary(old(self)@, expr@, *sp),
            frame(old(self)@, final(self)@),
        decreases expr, 2int,
    {
        proof {
            lemma_view_expr(*expr);
            lemma_sexpr_parts(expr@);
            lemma_wf_expr(expr@);
        }
        match expr {
            Expr::BinaryOp { left, op, right } => {
                let l = self.infer_expr(left, sp);
                let r = self.infer_expr(right, sp);
                if l.is_unknown() || r.is_unknown() {
                    return Type::Unknown;
                }
                let lt = l.to_string();
                let rt = r.to_string();
                if string_is(op, "++") {
                    if !l.is_string() || !r.is_string() {
                        self.error("类型错误", cat2("'++' 只能用于连接两个字符串，但这里是 '", &lt, "' 和 '", &rt, "'"), sp);
                        return Type::Unknown;
                    }
                    return Type::String;
                } else if string_is(op, "+") || string_is(op, "-") || string_is(op, "*") || string_is(op, "/") {
                    if string_is(op, "+") && (l.is_string() || r.is_string()) {
                        let e = StaticCheckError::new(
                            text("操作符错误"),
                            cat2("不能使用 '+' 来操作字符串 ('", &lt, "' + '", &rt, "')"),
                            span_copy(sp),
                        ).with_note(text("SGS 使用 '++' 来进行字符串拼接，请尝试将 '+' 替换为 '++'"), span_copy(sp));
                        self.err(e);
                        return Type::Unknown;
                    }
                    if !l.is_number() || !r.is_number() {
                        self.error("类型错误", cat3("操作符 '", op, "' 只能用于两个数字，但这里是 '", &lt, "' 和 '", &rt, "'"), sp);
                        return Type::Unknown;
                    }
                    return Type::Number;
                } else if string_is(op, "==") || string_is(op, "!=") {
                    if !l.same(&r) {
                        self.error("类型不匹配", cat2("无法比较 '", &lt, "' 和 '", &rt, "'"), sp);
                        return Type::Unknown;
                    }
                    return Type::Bool;
                } else if string_is(op, "<") || string_is(op, ">") || string_is(op, "<=") || string_is(op, ">=") {
                    if !l.is_number() || !r.is_number() {
                        self.error("类型错误", cat3("操作符 '", op, "' 只能用于两个数字，但这里写的是 '", &lt, "' 和 '", &rt, "'"), sp);
                        return Type::Unknown;
                    }
                    return Type::Bool;
                }
                Type::Unknown
            },
            _ => Type::Unknown,
        }
    }

    /// Checks arguments against parameters `params[first..]`, numbering them from `first + 1`.
    #[verifier::loop_isolation(false)]
    fn check_arguments(&mut self, args: &Vec<Expr>, params: &Vec<Type>, first: usize, sp: &Span)
        requires
            wf_exprs(view_exprs(args@)),
            args@.len() + first == params@.len(),
        ensures
            final(self)@ == check_args(old(self)@, view_exprs(args@), view_types(params@).skip(first as int), first as nat, *sp),
            frame(old(self)@, final(self)@),
        decreases args, 0int,
    {
        let ghost v = view_exprs(args@);
        let ghost ps = view_types(params@).skip(first as int);
        let mut i: usize = 0;
        let plen = params.len();
        assert(v.take(0) =~= Seq::<SExpr>::empty());
        while i < args.len()
            invariant
                0 <= i <= args@.len(),
                args@.len() + first == params@.len(),
                plen == params@.len(),
                self@ == check_args(old(self)@, v.take(i as int), ps, first as nat, *sp),
                frame(old(self)@, self@),
            decreases args@.len() - i,
        {
            proof { lemma_wf_exprs_at(v, i as int); }
            assert(v[i as int] == args@[i as int]@);
            assert(ps[i as int] == params@[first + i]@);
            assert(decreases_to!(args => args@));
            assert(decreases_to!(args@ => args@[i as int]));
            assert(first + i < params@.len());
            let k = first + i;
            let t = self.infer_expr(&args[i], sp);
            if clashes(&t, &params[k]) {
                self.err(argument_err(k + 1, &params[k], &t, sp));
            }
            assert(v.take(i + 1).drop_last() =~= v.take(i as int));
            i = i + 1;
        }
        assert(v.take(args@.len() as int) =~= v);
    }

    fn infer_call_expr(&mut self, expr: &Expr, sp: &Span) -> (r: Type)
        requires
            expr is Call,
            wf_expr(expr@),
        ensures
            (final(self)@, r@) == infer_call(old(self)@, expr@, *sp),
            frame(old(self)@, final(self)@),
        decreases expr, 2int,
    {
        proof {
            lemma_view_expr(*expr);
            lemma_sexpr_parts(expr@);
            lemma_wf_expr(expr@);
        }
        match expr {
            Expr::Call { target, args } => {
                let tt = self.infer_expr(target, sp);
                if tt.is_any() {
                    self.infer_all(args, sp);
                    return Type::Void;
                }
                proof {
                    lemma_view_type(tt);
                }
                match tt {
                    Type::Function { params, ret } => {
                        if args.len() != params.len() {
                            self.err(arity_err(params.len() as u128, args.len() as u128, sp));
                        } else {
                            assert(view_types(params@).skip(0) =~= view_types(params@));
                            self.check_arguments(args, &params, 0, sp);
                        }
                        *ret
                    },
                    _ => {
                        if !tt.is_unknown() {
                            self.error("调用错误", quote("为啥要把 '", &tt.to_string(), "' 类型的变量当作函数调用"), sp);
                        }
                        Type::Unknown
                    },
                }
            },
            _ => Type::Unknown,
        }
    }

    /// The warning for a change of an array that an enclosing `for` loop iterates.
    fn warn_iterated(&mut self, target: &Expr, title: &str, a: &str, b: &str, sp: &Span)
        requires
            wf_expr(target@),
        ensures
            final(self)@ == warn_if_iterated(old(self)@, target@, title@, a@, b@, *sp),
            frame(old(self)@, final(self)@),
    {
        match target {
            Expr::Path(path) => {
                assert(view_strings(path@)[0] == path@[0]@);
                if self.is_iterating(&path[0]) {
                    self.warn(title, quote(a, &path[0], b), sp);
                }
            },
            _ => {},
        }
    }

    fn number_arg(&mut self, t: &Type, message: &str, sp: &Span)
        ensures
            final(self)@ == not_number(old(self)@, t@, message@, *sp),
            frame(old(self)@, final(self)@),
    {
        if !t.is_unknown() && !t.is_number() {
            self.error("参数类型错误", text(message), sp);
        }
    }
}

fn no_method_err(a: &str, tt: &Type, b: &str, sp: &Span) -> (r: StaticCheckError)
    ensures
        r@ == no_method(a@, tt@, b@, *sp),
{
    StaticCheckError::new(text("类型错误"), quote(a, &tt.to_string(), b), span_copy(sp))
}

/// Whether a struct literal gives a field of this name.
fn gives_field(fields: &Vec<(String, Expr)>, name: &String) -> (r: bool)
    ensures
        r == given_names(view_fields(fields@)).contains(name@),
{
    let ghost g = given_names(view_fields(fields@));
    let mut i: usize = 0;
    while i < fields.len()
        invariant
            0 <= i <= fields@.len(),
            g == given_names(view_fields(fields@)),
            g.len() == fields@.len(),
            forall|j: int| 0 <= j < i ==> g[j] != name@,
        decreases fields@.len() - i,
    {
        proof { lemma_view_fields_at(fields@, i as int); }
        assert(g[i as int] == fields@[i as int].0@);
        if fields[i].0 == *name {
            return true;
        }
        i = i + 1;
    }
    false
}

impl Analyzer {
    fn infer_method_call(&mut self, expr: &Expr, sp: &Span) -> (r: Type)
        requires
            expr is MethodCall,
            wf_expr(expr@),
        ensures
            (final(self)@, r@) == infer_method(old(self)@, expr@, *sp),
            frame(old(self)@, final(self)@),
        decreases expr, 2int,
    {
        proof {
            lemma_view_expr(*expr);
            lemma_sexpr_parts(expr@);
            lemma_wf_expr(expr@);
        }
        match expr {
            Expr::MethodCall { target, method, args } => {
                let tt = self.infer_expr(target, sp);
                if tt.is_unknown() {
                    return Type::Unknown;
                }
                if string_is(method, "len") {
                    self.call_len(expr, tt, sp)
                } else if string_is(method, "push") {
                    self.call_push(expr, tt, sp)
                } else if string_is(method, "pop") {
                    self.call_pop(expr, tt, sp)
                } else if string_is(method, "slice") {
                    self.call_slice(expr, tt, sp)
                } else if string_is(method, "remove") {
                    self.call_remove(expr, tt, sp)
                } else if string_is(method, "insert") {
                    self.call_insert(expr, tt, sp)
                } else if string_is(method, "clear") {
                    self.call_clear(expr, tt, sp)
                } else {
                    self.call_program_fn(expr, tt, sp)
                }
            },
            _ => Type::Unknown,
        }
    }

    fn call_len(&mut self, expr: &Expr, tt: Type, sp: &Span) -> (r: Type)
        requires
            expr is MethodCall,
            wf_expr(expr@),
        ensures
            (final(self)@, r@) == method_len(old(self)@, expr@, tt@, *sp),
            frame(old(self)@, final(self)@),
        decreases expr, 1int,
    {
        proof {
            lemma_view_expr(*expr);
            lemma_sexpr_parts(expr@);
            lemma_wf_expr(expr@);
        }
        match expr {
            Expr::MethodCall { target, method, args } => {
                let ghost av = view_exprs(args@);
                assert(decreases_to!(args => args@));
                    if args.len() != 0 {
                        self.error("参数错误", text("len() 不需要参数"), sp);
                    }
                    match tt {
                        Type::Array(_) => Type::Number,
                        Type::String => Type::Number,
                        _ => {
                            self.err(no_method_err("类型 '", &tt, "' 没有 len() 方法", sp));
                            Type::Unknown
                        },
                    }
            },
            _ => Type::Unknown,
        }
    }

    fn call_push(&mut self, expr: &Expr, tt: Type, sp: &Span) -> (r: Type)
        requires
            expr is MethodCall,
            wf_expr(expr@),
        ensures
            (final(self)@, r@) == method_push(old(self)@, expr@, tt@, *sp),
            frame(old(self)@, final(self)@),
        decreases expr, 1int,
    {
        proof {
            lemma_view_expr(*expr);
            lemma_sexpr_parts(expr@);
            lemma_wf_expr(expr@);
        }
        match expr {
            Expr::MethodCall { target, method, args } => {
                let ghost av = view_exprs(args@);
                assert(decreases_to!(args => args@));
                    if args.len() != 1 {
                        self.error("参数错误", text("push() 需要 1 个参数"), sp);
                        return Type::Unknown;
                    }
                    self.warn_iterated(
                        target,
                        "遍历中追加元素",
                        "在 for 循环内部调用 '",
                        ".push()'。注意：这只会修改原数组，新元素不会参与本次遍历。",
                        sp,
                    );
                    match &tt {
                        Type::Array(inner) => {
                            proof { lemma_wf_exprs_at(av, 0); }
                            assert(av[0] == args@[0]@);
                            assert(decreases_to!(args@ => args@[0]));
                            let at = self.infer_expr(&args[0], sp);
                            if clashes(&at, inner) {
                                self.error(
                                    "类型不匹配",
                                    cat2("无法将 '", &at.to_string(), "' push 到 '", &inner.to_string(), "' 的数组中"),
                                    sp,
                                );
                            }
                            Type::Void
                        },
                        _ => {
                            self.err(no_method_err("只有数组有 push() 方法，但得到了 '", &tt, "'", sp));
                            Type::Unknown
                        },
                    }
            },
            _ => Type::Unknown,
        }
    }

    fn call_pop(&mut self, expr: &Expr, tt: Type, sp: &Span) -> (r: Type)
        requires
            expr is MethodCall,
            wf_expr(expr@),
        ensures
            (final(self)@, r@) == method_pop(old(self)@, expr@, tt@, *sp),
            frame(old(self)@, final(self)@),
        decreases expr, 1int,
    {
        proof {
            lemma_view_expr(*expr);
            lemma_sexpr_parts(expr@);
            lemma_wf_expr(expr@);
        }
        match expr {
            Expr::MethodCall { target, method, args } => {
                let ghost av = view_exprs(args@);
                assert(decreases_to!(args => args@));
                    if args.len() != 0 {
                        self.error("参数错误", text("pop() 不需要参数"), sp);
                        return Type::Unknown;
                    }
                    self.warn_iterated(
                        target,
                        "遍历中弹出元素",
                        "在 for 循环内部调用 '",
                        ".pop()'。注意：循环仍会按照进入前的快照长度继续执行。",
                        sp,
                    );
                    match tt {
                        Type::Array(inner) => *inner,
                        _ => {
                            self.err(no_method_err("只有数组有 pop() 方法，但得到了 '", &tt, "'", sp));
                            Type::Unknown
                        },
                    }
            },
            _ => Type::Unknown,
        }
    }

    fn call_slice(&mut self, expr: &Expr, tt: Type, sp: &Span) -> (r: Type)
        requires
            expr is MethodCall,
            wf_expr(expr@),
        ensures
            (final(self)@, r@) == method_slice(old(self)@, expr@, tt@, *sp),
            frame(old(self)@, final(self)@),
        decreases expr, 1int,
    {
        proof {
            lemma_view_expr(*expr);
            lemma_sexpr_parts(expr@);
            lemma_wf_expr(expr@);
        }
        match expr {
            Expr::MethodCall { target, method, args } => {
                let ghost av = view_exprs(args@);
                assert(decreases_to!(args => args@));
                    if args.len() != 2 {
                        self.error("参数错误", text("slice() 需要 2 个参数 (start, end)"), sp);
                        return Type::Unknown;
                    }
                    proof { lemma_wf_exprs_at(av, 0); lemma_wf_exprs_at(av, 1); }
                    assert(av[0] == args@[0]@);
                    assert(av[1] == args@[1]@);
                    assert(decreases_to!(args@ => args@[0]));
                    assert(decreases_to!(args@ => args@[1]));
                    let st = self.infer_expr(&args[0], sp);
                    let et = self.infer_expr(&args[1], sp);
                    if (!st.is_unknown() && !st.is_number()) || (!et.is_unknown() && !et.is_number()) {
                        self.error("参数类型错误", text("slice() 的参数必须是数字"), sp);
                    }
                    match tt {
                        Type::Array(_) => tt,
                        Type::String => tt,
                        _ => {
                            self.err(no_method_err("类型 '", &tt, "' 没有 slice() 方法", sp));
                            Type::Unknown
                        },
                    }
            },
            _ => Type::Unknown,
        }
    }

    fn call_remove(&mut self, expr: &Expr, tt: Type, sp: &Span) -> (r: Type)
        requires
            expr is MethodCall,
            wf_expr(expr@),
        ensures
            (final(self)@, r@) == method_remove(old(self)@, expr@, tt@, *sp),
            frame(old(self)@, final(self)@),
        decreases expr, 1int,
    {
        proof {
            lemma_view_expr(*expr);
            lemma_sexpr_parts(expr@);
            lemma_wf_expr(expr@);
        }
        match expr {
            Expr::MethodCall { target, method, args } => {
                let ghost av = view_exprs(args@);
                assert(decreases_to!(args => args@));
                    if args.len() != 1 {
                        self.error("参数错误", text("remove() 需要 1 个参数 (index)"), sp);
                        return Type::Unknown;
                    }
                    self.warn_iterated(
                        target,
                        "遍历中移除元素",
                        "在 for 循环内部调用 '",
                        ".remove()'。注意：循环长度已锁定，这可能导致逻辑偏移。",
                        sp,
                    );
                    proof { lemma_wf_exprs_at(av, 0); }
                    assert(av[0] == args@[0]@);
                    assert(decreases_to!(args@ => args@[0]));
                    let it = self.infer_expr(&args[0], sp);
                    self.number_arg(&it, "remove() 的索引必须是数字", sp);
                    match tt {
                        Type::Array(inner) => *inner,
                        _ => {
                            self.err(no_method_err("只有数组有 remove() 方法，但得到了 '", &tt, "'", sp));
                            Type::Unknown
                        },
                    }
            },
            _ => Type::Unknown,
        }
    }

    fn call_insert(&mut self, expr: &Expr, tt: Type, sp: &Span) -> (r: Type)
        requires
            expr is MethodCall,
            wf_expr(expr@),
        ensures
            (final(self)@, r@) == method_insert(old(self)@, expr@, tt@, *sp),
            frame(old(self)@, final(self)@),
        decreases expr, 1int,
    {
        proof {
            lemma_view_expr(*expr);
            lemma_sexpr_parts(expr@);
            lemma_wf_expr(expr@);
        }
        match expr {
            Expr::MethodCall { target, method, args } => {
                let ghost av = view_exprs(args@);
                assert(decreases_to!(args => args@));
                    if args.len() != 2 {
                        self.error("参数错误", text("insert() 需要 2 个参数 (index, value)"), sp);
                        return Type::Unknown;
                    }
                    self.warn_iterated(target, "遍历中插入元素", "在 for 循环内部调用 '", ".insert()'。", sp);
                    proof { lemma_wf_exprs_at(av, 0); lemma_wf_exprs_at(av, 1); }
                    assert(av[0] == args@[0]@);
                    assert(av[1] == args@[1]@);
                    assert(decreases_to!(args@ => args@[0]));
                    assert(decreases_to!(args@ => args@[1]));
                    let it = self.infer_expr(&args[0], sp);
                    self.number_arg(&it, "insert() 的索引必须是数字", sp);
                    match &tt {
                        Type::Array(inner) => {
                            let at = self.infer_expr(&args[1], sp);
                            if clashes(&at, inner) {
                                self.error(
                                    "类型不匹配",
                                    cat2("无法将 '", &at.to_string(), "' 插入到 '", &inner.to_string(), "' 的数组中"),
                                    sp,
                                );
                            }
                            Type::Void
                        },
                        _ => {
                            self.err(no_method_err("只有数组有 insert() 方法，得到了 '", &tt, "'", sp));
                            Type::Unknown
                        },
                    }
            },
            _ => Type::Unknown,
        }
    }

    fn call_clear(&mut self, expr: &Expr, tt: Type, sp: &Span) -> (r: Type)
        requires
            expr is MethodCall,
            wf_expr(expr@),
        ensures
            (final(self)@, r@) == method_clear(old(self)@, expr@, tt@, *sp),
            frame(old(self)@, final(self)@),
        decreases expr, 1int,
    {
        proof {
            lemma_view_expr(*expr);
            lemma_sexpr_parts(expr@);
            lemma_wf_expr(expr@);
        }
        match expr {
            Expr::MethodCall { target, method, args } => {
                let ghost av = view_exprs(args@);
                assert(decreases_to!(args => args@));
                    if args.len() != 0 {
                        self.error("参数错误", text("clear() 不需要参数"), sp);
                    }
                    self.warn_iterated(
                        target,
                        "遍历中清空数组",
                        "在 for 循环内部调用 '",
                        ".clear()'。当前的遍历会继续基于旧的快照执行完。",
                        sp,
                    );
                    match tt {
                        Type::Array(_) => Type::Void,
                        _ => {
                            self.err(no_method_err("只有数组有 clear() 方法，得到了 '", &tt, "'", sp));
                            Type::Unknown
                        },
                    }
            },
            _ => Type::Unknown,
        }
    }

    fn call_program_fn(&mut self, expr: &Expr, tt: Type, sp: &Span) -> (r: Type)
        requires
            expr is MethodCall,
            wf_expr(expr@),
        ensures
            (final(self)@, r@) == method_of_program(old(self)@, expr@, tt@, *sp),
            frame(old(self)@, final(self)@),
        decreases expr, 1int,
    {
        proof {
            lemma_view_expr(*expr);
            lemma_sexpr_parts(expr@);
            lemma_wf_expr(expr@);
        }
        match expr {
            Expr::MethodCall { target, method, args } => {
                let ghost av = view_exprs(args@);
                assert(decreases_to!(args => args@));
                    let fty = match self.resolve_var(method.as_str()) {
                        Some(sym) => Some(sym.ty.copy()),
                        None => None,
                    };
                    proof {
                        if fty is Some {
                            lemma_view_type(fty->0);
                        }
                    }
                    match fty {
                        Some(Type::Function { params, ret }) => {
                            proof {
                                if params@.len() > 0 {
                                    lemma_view_types_at(params@, 0);
                                }
                            }
                            if params.len() == 0 || args.len() != params.len() - 1 {
                                self.err(arity_err(params.len() as u128, args.len() as u128 + 1, sp));
                            } else {
                                if clashes(&tt, &params[0]) {
                                    self.err(argument_err(1, &params[0], &tt, sp));
                                }
                                self.check_arguments(args, &params, 1, sp);
                            }
                            *ret
                        },
                        _ => {
                            self.error("方法不存在", quote("找不到方法: '", method, "'"), sp);
                            Type::Unknown
                        },
                    }
            },
            _ => Type::Unknown,
        }
    }

    #[verifier::loop_isolation(false)]
    #[verifier::rlimit(40)]
    fn infer_struct_init(&mut self, expr: &Expr, sp: &Span) -> (r: Type)
        requires
            expr is StructInit,
            wf_expr(expr@),
        ensures
            (final(self)@, r@) == infer_struct(old(self)@, expr@, *sp),
            frame(old(self)@, final(self)@),
        decreases expr, 2int,
    {
        proof {
            lemma_view_expr(*expr);
            lemma_sexpr_parts(expr@);
            lemma_wf_expr(expr@);
        }
        match expr {
            Expr::StructInit { name, fields } => {
                let bp = match self.struct_defs.get(name.as_str()) {
                    Some(t) => copy_fields(t),
                    None => {
                        self.error("未知类型", quote("找不到名为 '", name, "' 的结构体"), sp);
                        return Type::Unknown;
                    },
                };
                let ghost fv = view_fields(fields@);
                let ghost m0 = self@;
                let mut i: usize = 0;
                assert(fv.take(0) =~= Seq::<(Seq<char>, SExpr)>::empty());
                while i < fields.len()
                    invariant
                        0 <= i <= fields@.len(),
                        self@ == infer_given_fields(m0, name@, bp@, fv.take(i as int), *sp),
                        frame(old(self)@, self@),
                    decreases fields@.len() - i,
                {
                    proof { lemma_view_fields_at(fields@, i as int); }
                    assert(fv[i as int] == (fields@[i as int].0@, fields@[i as int].1@));
                    assert(wf_expr(fv[i as int].1));
                    assert(decreases_to!(fields => fields@));
                    assert(decreases_to!(fields@ => fields@[i as int]));
                    assert(decreases_to!(fields@[i as int] => fields@[i as int].1));
                    let t = self.infer_expr(&fields[i].1, sp);
                    let found = match bp.get(fields[i].0.as_str()) {
                        Some(expected) => Some(expected.copy()),
                        None => None,
                    };
                    match found {
                        Some(expected) => {
                            if clashes(&t, &expected) {
                                let mut m = cat3(
                                    "实例化 '",
                                    name,
                                    "' 时，字段 '",
                                    &fields[i].0,
                                    "' 期待 '",
                                    &expected.to_string(),
                                    "'，但得到了 '",
                                );
                                t.push_text(&mut m);
                                m.append("'");
                                self.error("字段类型不匹配", m, sp);
                            }
                        },
                        None => {
                            self.error("不存在的字段", cat2("结构体 '", name, "' 根本没有名为 '", &fields[i].0, "' 的字段"), sp);
                        },
                    }
                    assert(fv.take(i + 1).drop_last() =~= fv.take(i as int));
                    i = i + 1;
                }
                assert(fv.take(fields@.len() as int) =~= fv);
                let ghost m1 = self@;
                let mut j: usize = 0;
                assert(bp@.take(0) =~= Seq::<(Seq<char>, SType)>::empty());
                while j < bp.entries.len()
                    invariant
                        0 <= j <= bp.entries@.len(),
                        self@ == check_missing(m1, name@, bp@.take(j as int), given_names(fv), *sp),
                        frame(old(self)@, self@),
                    decreases bp.entries@.len() - j,
                {
                    assert(bp@.take(j + 1).drop_last() =~= bp@.take(j as int));
                    assert(bp@.take(j + 1).last().0 == bp.entries@[j as int].0@);
                    if !gives_field(fields, &bp.entries[j].0) {
                        self.error("漏写字段", cat2("实例化 '", name, "' 时，缺少必要的字段: '", &bp.entries[j].0, "'"), sp);
                    }
                    j = j + 1;
                }
                assert(bp@.take(bp.entries@.len() as int) =~= bp@);
                Type::Struct(name.clone())
            },
            _ => Type::Unknown,
        }
    }
}

impl Analyzer {
    fn check_cond(&mut self, t: &Type, what: &str, sp: &Span)
        ensures
            final(self)@ == check_condition(old(self)@, t@, what@, *sp),
            frame(old(self)@, final(self)@),
    {
        if !t.is_unknown() && !t.is_bool() {
            self.error("条件类型错误", cat2("'", &text(what), "' 的条件必须是 'bool' 类型，但得到了 '", &t.to_string(), "'"), sp);
        }
    }

    fn verify_return(&mut self, actual: Type, span: &Span)
        ensures
            final(self)@ == verify_return(old(self)@, actual@, *span),
            frame(old(self)@, final(self)@),
    {
        let report = match &self.current_return_ty {
            Some(expected) => !expected.is_unknown() && !actual.is_unknown() && !expected.same(&actual),
            None => false,
        };
        if report {
            let expected_text = match &self.current_return_ty {
                Some(expected) => expected.to_string(),
                None => String::new(),
            };
            self.error("返回值类型错误", cat2("函数声明返回 '", &expected_text, "'，但实际返回了 '", &actual.to_string(), "'"), span);
        }
    }

    /// The type reached by assigning through the fields of `path` after its first name.
    #[verifier::loop_isolation(false)]
    fn walk_assign_fields(&self, start: Type, path: &Vec<String>) -> (r: Type)
        requires
            path@.len() > 0,
        ensures
            r@ == walk_assign(self@.structs, start@, view_strings(path@).drop_first()),
    {
        let ghost p = view_strings(path@);
        let ghost st = start@;
        let mut cur = start;
        let mut i: usize = 1;
        assert(p.skip(1) =~= p.drop_first());
        while i < path.len()
            invariant
                1 <= i <= path@.len(),
                p == view_strings(path@),
                walk_assign(self@.structs, st, p.drop_first()) == walk_assign(self@.structs, cur@, p.skip(i as int)),
            decreases path@.len() - i,
        {
            let ghost fields = p.skip(i as int);
            assert(fields[0] == path@[i as int]@);
            assert(fields.drop_first() =~= p.skip(i + 1));
            proof {
                lemma_view_type(cur);
            }
            let next: Option<Type> = match &cur {
                Type::Struct(sn) => match self.struct_defs.get(sn.as_str()) {
                    Some(fm) => match fm.get(path[i].as_str()) {
                        Some(ft) => Some(ft.copy()),
                        None => None,
                    },
                    None => Some(cur.copy()),
                },
                _ => None,
            };
            match next {
                Some(t) => {
                    cur = t;
                },
                None => {
                    return Type::Unknown;
                },
            }
            i = i + 1;
        }
        assert(p.skip(path@.len() as int).len() == 0);
        cur
    }

    fn check_assignment(&mut self, a: &AssignStmt, span: &Span)
        requires
            a.target_path@.len() > 0,
            wf_expr(a.value@),
            match a.index {
                Some(i) => wf_expr(i@),
                None => true,
            },
        ensures
            final(self)@ == check_assign(
                old(self)@,
                view_strings(a.target_path@),
                match a.index {
                    Some(i) => Some(i@),
                    None => None,
                },
                a.value@,
                *span,
            ),
            frame(old(self)@, final(self)@),
    {
        let rhs = self.infer_expr(&a.value, span);
        let name = &a.target_path[0];
        assert(view_strings(a.target_path@)[0] == name@);
        if self.is_iterating(name) {
            self.warn(
                "遍历中修改集合",
                quote(
                    "\n                            你正在对 '",
                    name,
                    "' 进行 for 循环遍历，同时又在这里修改了它。\n                            SGS 使用快照机制，这不会导致死循环，但新增/删除的元素不会在当前循环中生效，请注意逻辑预期",
                ),
                span,
            );
        }
        let info = match self.resolve_var(name.as_str()) {
            Some(sym) => Some((sym.is_mut, sym.ty.copy(), span_copy(&sym.decl_span))),
            None => None,
        };
        match info {
            None => {
                self.error("找不到变量", quote("找不到变量: '", name, "'"), span);
            },
            Some((is_mut, ty, decl)) => {
                if !is_mut {
                    let e = StaticCheckError::new(
                        text("不可变真的可变吗？"),
                        quote("无法对不可变变量 '", name, "' 重新赋值。"),
                        span_copy(span),
                    ).with_note(cat2("Note：变量 '", name, "' 在这里被声明为不可变，可尝试改为 let mut ", name, " = ..."), decl);
                    self.err(e);
                }
                let expected = self.walk_assign_fields(ty, &a.target_path);
                let target = match &a.index {
                    Some(ie) => {
                        let it = self.infer_expr(ie, span);
                        if !it.is_unknown() && !it.is_number() {
                            self.error("索引错误", text("数组索引必须是 'number' 类型"), span);
                        }
                        proof {
                            lemma_view_type(expected);
                        }
                        match expected {
                            Type::Array(inner) => *inner,
                            _ => {
                                if !expected.is_unknown() {
                                    self.error("类型错误", quote("无法对非数组类型 '", &expected.to_string(), "' 进行索引赋值"), span);
                                }
                                Type::Unknown
                            },
                        }
                    },
                    None => expected,
                };
                if clashes(&rhs, &target) {
                    self.error("类型不匹配", cat2("试图将 '", &rhs.to_string(), "' 赋值给 '", &target.to_string(), "' 类型的坑位"), span);
                }
            },
        }
    }

    /// Checks a statement, appending each diagnostic the typing rules raise.
    pub fn check_stmt(&mut self, stmt: &Spanned<Stmt>)
        requires
            old(self).wf(),
            wf_stmt(stmt.node@),
            old(self)@.loop_depth + loop_nesting(stmt.node@) <= usize::MAX,
        ensures
            final(self).wf(),
            final(self)@ == check(old(self)@, view_spanned_stmt(*stmt)),
            final(self)@.scopes.len() == old(self)@.scopes.len(),
            final(self)@.loop_depth == old(self)@.loop_depth,
            final(self)@.iterating == old(self)@.iterating,
        decreases stmt, 2int,
    {
        match &stmt.node {
            Stmt::If { .. } => self.check_if(stmt),
            Stmt::While { .. } => self.check_while(stmt),
            Stmt::For { .. } => self.check_for(stmt),
            Stmt::Block(_) => self.check_block(stmt),
            _ => self.check_simple(stmt),
        }
    }

    fn check_simple(&mut self, stmt: &Spanned<Stmt>)
        requires
            old(self).wf(),
            wf_stmt(stmt.node@),
            !(stmt.node is If || stmt.node is While || stmt.node is For || stmt.node is Block),
        ensures
            final(self).wf(),
            final(self)@ == check(old(self)@, view_spanned_stmt(*stmt)),
            final(self)@.scopes.len() == old(self)@.scopes.len(),
            final(self)@.loop_depth == old(self)@.loop_depth,
            final(self)@.iterating == old(self)@.iterating,
    {
        proof {
            lemma_view_stmt(stmt.node);
            lemma_wf_stmt(stmt.node@);
        }
        let span = &stmt.span;
        match &stmt.node {
            Stmt::Let { is_mut, name, value } => {
                let t = self.infer_expr(value, span);
                self.define_var(name.clone(), *is_mut, t, span);
            },
            Stmt::Assign(a) => {
                self.check_assignment(a, span);
            },
            Stmt::Expr(e) => {
                self.infer_expr(e, span);
            },
            Stmt::Return(opt) => {
                let t = match opt {
                    Some(e) => self.infer_expr(e, span),
                    None => Type::Void,
                };
                self.verify_return(t, span);
            },
            Stmt::ImplicitReturn(e) => {
                let t = self.infer_expr(e, span);
                self.verify_return(t, span);
            },
            Stmt::Break => {
                if self.loop_depth == 0 {
                    self.error("非法控制流", text("'break' 只能在循环体内使用"), span);
                }
            },
            Stmt::Continue => {
                if self.loop_depth == 0 {
                    self.error("非法控制流", text("'continue' 只能在循环体内使用"), span);
                }
            },
            _ => {},
        }
    }

    fn check_if(&mut self, stmt: &Spanned<Stmt>)
        requires
            old(self).wf(),
            wf_stmt(stmt.node@),
            stmt.node is If,
            old(self)@.loop_depth + loop_nesting(stmt.node@) <= usize::MAX,
        ensures
            final(self).wf(),
            final(self)@ == check(old(self)@, view_spanned_stmt(*stmt)),
            final(self)@.scopes.len() == old(self)@.scopes.len(),
            final(self)@.loop_depth == old(self)@.loop_depth,
            final(self)@.iterating == old(self)@.iterating,
        decreases stmt, 1int,
    {
        proof {
            lemma_view_stmt(stmt.node);
            lemma_stmt_parts(stmt.node);
            lemma_sspanned_parts(view_spanned_stmt(*stmt));
            lemma_wf_stmt(stmt.node@);
        }
        let span = &stmt.span;
        match &stmt.node {
            Stmt::If { condition, then_branch, else_branch } => {
                let t = self.infer_expr(condition, span);
                self.check_cond(&t, "if", span);
                self.push_scope();
                assert(decreases_to!(*stmt => stmt.node));
                self.check_all(then_branch);
                self.pop_scope();
                match else_branch {
                    Some(eb) => {
                        self.check_stmt(eb);
                    },
                    None => {},
                }
            },
            _ => {},
        }
    }

    fn check_block(&mut self, stmt: &Spanned<Stmt>)
        requires
            old(self).wf(),
            wf_stmt(stmt.node@),
            stmt.node is Block,
            old(self)@.loop_depth + loop_nesting(stmt.node@) <= usize::MAX,
        ensures
            final(self).wf(),
            final(self)@ == check(old(self)@, view_spanned_stmt(*stmt)),
            final(self)@.scopes.len() == old(self)@.scopes.len(),
            final(self)@.loop_depth == old(self)@.loop_depth,
            final(self)@.iterating == old(self)@.iterating,
        decreases stmt, 1int,
    {
        proof {
            lemma_view_stmt(stmt.node);
            lemma_stmt_parts(stmt.node);
            lemma_sspanned_parts(view_spanned_stmt(*stmt));
            lemma_wf_stmt(stmt.node@);
        }
        match &stmt.node {
            Stmt::Block(stmts) => {
                self.push_scope();
                assert(decreases_to!(*stmt => stmt.node));
                self.check_all(stmts);
                self.pop_scope();
            },
            _ => {},
        }
    }

    fn check_while(&mut self, stmt: &Spanned<Stmt>)
        requires
            old(self).wf(),
            wf_stmt(stmt.node@),
            stmt.node is While,
            old(self)@.loop_depth + loop_nesting(stmt.node@) <= usize::MAX,
        ensures
            final(self).wf(),
            final(self)@ == check(old(self)@, view_spanned_stmt(*stmt)),
            final(self)@.scopes.len() == old(self)@.scopes.len(),
            final(self)@.loop_depth == old(self)@.loop_depth,
            final(self)@.iterating == old(self)@.iterating,
        decreases stmt, 1int,
    {
        proof {
            lemma_view_stmt(stmt.node);
            lemma_stmt_parts(stmt.node);
            lemma_sspanned_parts(view_spanned_stmt(*stmt));
            lemma_wf_stmt(stmt.node@);
        }
        let span = &stmt.span;
        match &stmt.node {
            Stmt::While { condition, body } => {
                let t = self.infer_expr(condition, span);
                self.check_cond(&t, "while", span);
                self.loop_depth = self.loop_depth + 1;
                self.push_scope();
                assert(decreases_to!(*stmt => stmt.node));
                self.check_all(body);
                self.pop_scope();
                self.loop_depth = self.loop_depth - 1;
            },
            _ => {},
        }
    }

    fn check_for(&mut self, stmt: &Spanned<Stmt>)
        requires
            old(self).wf(),
            wf_stmt(stmt.node@),
            stmt.node is For,
            old(self)@.loop_depth + loop_nesting(stmt.node@) <= usize::MAX,
        ensures
            final(self).wf(),
            final(self)@ == check(old(self)@, view_spanned_stmt(*stmt)),
            final(self)@.scopes.len() == old(self)@.scopes.len(),
            final(self)@.loop_depth == old(self)@.loop_depth,
            final(self)@.iterating == old(self)@.iterating,
        decreases stmt, 1int,
    {
        proof {
            lemma_view_stmt(stmt.node);
            lemma_stmt_parts(stmt.node);
            lemma_sspanned_parts(view_spanned_stmt(*stmt));
            lemma_wf_stmt(stmt.node@);
        }
        let span = &stmt.span;
        match &stmt.node {
            Stmt::For { is_mut, item_name, iterable, body } => {
                let it = self.infer_expr(iterable, span);
                proof {
                    lemma_view_type(it);
                }
                let item = match it {
                    Type::Array(inner) => *inner,
                    _ => {
                        if !it.is_unknown() {
                            self.error("类型错误", quote("'for' 循环只能遍历数组，但得到了 '", &it.to_string(), "'"), span);
                        }
                        Type::Unknown
                    },
                };
                self.loop_depth = self.loop_depth + 1;
                self.push_scope();
                self.define_var(item_name.clone(), *is_mut, item, span);
                let locked = match iterable {
                    Expr::Path(path) => path.len() == 1,
                    _ => false,
                };
                if locked {
                    match iterable {
                        Expr::Path(path) => {
                            assert(view_strings(path@)[0] == path@[0]@);
                            let ghost before = self@.iterating;
                            self.iterating_vars.push(path[0].clone());
                            assert(self@.iterating =~= before.push(path@[0]@));
                        },
                        _ => {},
                    }
                }
                assert(decreases_to!(*stmt => stmt.node));
                self.check_all(body);
                self.pop_scope();
                self.loop_depth = self.loop_depth - 1;
                if locked {
                    let ghost before = self@.iterating;
                    self.iterating_vars.pop();
                    assert(self@.iterating =~= before.drop_last());
                }
            },
            _ => {},
        }
    }

    /// Checks statements in turn.
    #[verifier::loop_isolation(false)]
    fn check_all(&mut self, ss: &Vec<Spanned<Stmt>>)
        requires
            old(self).wf(),
            wf_stmts(view_stmts(ss@)),
            old(self)@.loop_depth + nesting_seq(view_stmts(ss@)) <= usize::MAX,
        ensures
            final(self).wf(),
            final(self)@ == check_seq(old(self)@, view_stmts(ss@)),
            final(self)@.scopes.len() == old(self)@.scopes.len(),
            final(self)@.loop_depth == old(self)@.loop_depth,
            final(self)@.iterating == old(self)@.iterating,
        decreases ss, 0int,
    {
        let ghost v = view_stmts(ss@);
        let mut i: usize = 0;
        assert(v.take(0) =~= Seq::<SSpanned<SStmt>>::empty());
        while i < ss.len()
            invariant
                0 <= i <= ss@.len(),
                self.wf(),
                self@ == check_seq(old(self)@, v.take(i as int)),
                self@.scopes.len() == old(self)@.scopes.len(),
                self@.loop_depth == old(self)@.loop_depth,
                self@.iterating == old(self)@.iterating,
            decreases ss@.len() - i,
        {
            proof {
                lemma_view_stmts_at(ss@, i as int);
                lemma_wf_stmts_at(v, i as int);
                lemma_nesting_at(v, i as int);
            }
            assert(decreases_to!(ss => ss@));
            assert(decreases_to!(ss@ => ss@[i as int]));
            self.check_stmt(&ss[i]);
            assert(v.take(i + 1).drop_last() =~= v.take(i as int));
            i = i + 1;
        }
        assert(v.take(ss@.len() as int) =~= v);
    }
}

/// The views of a system's functions.
pub open spec fn view_functions(fs: Seq<FunctionDef>) -> Seq<SFunctionDef> {
    Seq::new(fs.len(), |i: int| view_function(fs[i]))
}

/// The view of a struct's fields.
pub open spec fn view_field_names(fs: Seq<(String, String)>) -> Seq<(Seq<char>, Seq<char>)> {
    Seq::new(fs.len(), |i: int| (fs[i].0@, fs[i].1@))
}

impl Analyzer {
    /// Registers a struct: its fields, each with the type its annotation names.
    pub fn register_struct(&mut self, struct_def: &StructDef)
        ensures
            final(self).wf() == old(self).wf(),
            final(self)@ == (AModel {
                structs: bind(old(self)@.structs, struct_def.name@, field_table(view_field_names(struct_def.fields@))),
                ..old(self)@
            }),
    {
        let ghost fs = view_field_names(struct_def.fields@);
        let mut fields: Table<Type> = Table::new();
        let mut i: usize = 0;
        assert(fs.take(0) =~= Seq::<(Seq<char>, Seq<char>)>::empty());
        while i < struct_def.fields.len()
            invariant
                0 <= i <= struct_def.fields@.len(),
                fs == view_field_names(struct_def.fields@),
                fields@ == field_table(fs.take(i as int)),
            decreases struct_def.fields@.len() - i,
        {
            let f_ty = Type::from_name(struct_def.fields[i].1.as_str());
            fields.insert(struct_def.fields[i].0.clone(), f_ty);
            assert(fs.take(i + 1).drop_last() =~= fs.take(i as int));
            i = i + 1;
        }
        assert(fs.take(struct_def.fields@.len() as int) =~= fs);
        self.struct_defs.insert(struct_def.name.clone(), fields);
    }

    /// Binds the builtins `println` and `print` in the outermost scope, and each
    /// function of the system, with its type, in the innermost scope.
    pub fn register_functions(&mut self, sys: &SystemDef)
        requires
            old(self).wf(),
        ensures
            final(self).wf(),
            final(self)@ == define_functions(with_builtins(old(self)@), view_functions(sys.functions@)),
            old(self)@.scopes.len() == 1 && (forall|i: int|
                0 <= i < sys.functions@.len() ==> #[trigger] sys.functions@[i].name@ != "println"@)
                ==> resolve(final(self)@.scopes, "println"@) == Some(
                SSymbol { is_mut: false, ty: SType::Any, decl_span: 0..0 },
            ),
            old(self)@.scopes.len() == 1 && (forall|i: int|
                0 <= i < sys.functions@.len() ==> #[trigger] sys.functions@[i].name@ != "print"@)
                ==> resolve(final(self)@.scopes, "print"@) == Some(
                SSymbol { is_mut: false, ty: SType::Any, decl_span: 0..0 },
            ),
    {
        let ghost before = self@;
        let mut outer = self.scopes.remove(0);
        outer.insert(text("println"), Symbol { is_mut: false, ty: Type::Any, decl_span: 0..0 });
        outer.insert(text("print"), Symbol { is_mut: false, ty: Type::Any, decl_span: 0..0 });
        self.scopes.insert(0, outer);
        proof {
            lemma_view_type(Type::Any);
        }
        assert(self@ == with_builtins(old(self)@)) by {
            assert(self@.scopes =~= with_builtins(old(self)@).scopes);
        }
        let ghost m0 = self@;
        let ghost fs = view_functions(sys.functions@);
        let mut i: usize = 0;
        assert(fs.take(0) =~= Seq::<SFunctionDef>::empty());
        while i < sys.functions.len()
            invariant
                0 <= i <= sys.functions@.len(),
                self.wf(),
                fs == view_functions(sys.functions@),
                self@ == define_functions(m0, fs.take(i as int)),
            decreases sys.functions@.len() - i,
        {
            let func = &sys.functions[i];
            let mut ptys: Vec<Type> = Vec::new();
            let mut j: usize = 0;
            while j < func.params.len()
                invariant
                    0 <= j <= func.params@.len(),
                    ptys@.len() == j,
                    forall|k: int| 0 <= k < j ==> #[trigger] view_type(ptys@[k]) == type_of_name(func.params@[k].ty@),
                decreases func.params@.len() - j,
            {
                ptys.push(Type::from_name(func.params[j].ty.as_str()));
                j = j + 1;
            }
            let ret_ty = match &func.return_ty {
                Some(t) => Type::from_name(t.as_str()),
                None => Type::Void,
            };
            let func_ty = Type::Function { params: ptys, ret: Box::new(ret_ty) };
            proof {
                lemma_view_type(func_ty);
                lemma_view_type(Type::Void);
                assert forall|k: int| 0 <= k < ptys@.len() implies view_types(ptys@)[k] == param_types(
                    view_fn_params(func.params@),
                )[k] by {
                    lemma_view_types_at(ptys@, k);
                }
                assert(view_types(ptys@).len() == ptys@.len()) by {
                    if ptys@.len() > 0 {
                        lemma_view_types_at(ptys@, 0);
                    }
                }
                assert(view_types(ptys@) =~= param_types(view_fn_params(func.params@)));
                assert(fs[i as int] == view_function(*func));
            }
            self.define_var(func.name.clone(), false, func_ty, &(0..0));
            assert(fs.take(i + 1).drop_last() =~= fs.take(i as int));
            i = i + 1;
        }
        assert(fs.take(sys.functions@.len() as int) =~= fs);
        proof {
            assert forall|k: int| 0 <= k < fs.len() implies #[trigger] fs[k].name == sys.functions@[k].name@ by {
                assert(fs[k] == view_function(sys.functions@[k]));
            }
            law_builtins_bound(before, fs);
        }
    }

    /// Checks a function: its parameters are bound in a new scope, in which
    /// its statements are checked against its declared return type.
    pub fn check_function(&mut self, func: &FunctionDef)
        requires
            old(self).wf(),
            wf_stmts(view_stmts(func.statements@)),
            old(self)@.loop_depth + nesting_seq(view_stmts(func.statements@)) <= usize::MAX,
        ensures
            final(self).wf(),
            final(self)@ == check_function_spec(old(self)@, func@),
            final(self)@.scopes.len() == old(self)@.scopes.len(),
            final(self)@.loop_depth == old(self)@.loop_depth,
            final(self)@.iterating == old(self)@.iterating,
    {
        self.push_scope();
        let rt = match &func.return_ty {
            Some(t) => Type::from_name(t.as_str()),
            None => Type::Void,
        };
        proof {
            lemma_view_type(Type::Void);
        }
        self.current_return_ty = Some(rt);
        let ghost m1 = self@;
        let ghost ps = view_fn_params(func.params@);
        let mut i: usize = 0;
        assert(ps.take(0) =~= Seq::<SFnParam>::empty());
        while i < func.params.len()
            invariant
                0 <= i <= func.params@.len(),
                self.wf(),
                ps == view_fn_params(func.params@),
                self@ == define_params(m1, ps.take(i as int)),
                self@.scopes.len() == m1.scopes.len(),
                self@.loop_depth == m1.loop_depth,
                self@.iterating == m1.iterating,
            decreases func.params@.len() - i,
        {
            let p = &func.params[i];
            self.define_var(p.name.clone(), p.is_mut, Type::from_name(p.ty.as_str()), &(0..0));
            assert(ps.take(i + 1).drop_last() =~= ps.take(i as int));
            i = i + 1;
        }
        assert(ps.take(func.params@.len() as int) =~= ps);
        self.check_all(&func.statements);
        self.pop_scope();
    }
}

/// How deeply loops nest in a statement, when that fits a `usize`.
fn stmt_nesting(stmt: &Spanned<Stmt>) -> (r: Option<usize>)
    ensures
        match r {
            Some(n) => n == loop_nesting(stmt.node@),
            None => loop_nesting(stmt.node@) > usize::MAX,
        },
    decreases stmt, 1int,
{
    proof {
        lemma_view_stmt(stmt.node);
        lemma_stmt_parts(stmt.node);
    }
    assert(decreases_to!(*stmt => stmt.node));
    match &stmt.node {
        Stmt::Block(b) => seq_nesting(b),
        Stmt::If { then_branch, else_branch, .. } => {
            let a = match seq_nesting(then_branch) {
                Some(a) => a,
                None => return None,
            };
            let b = match else_branch {
                Some(x) => {
                    assert(decreases_to!(stmt.node => *x));
                    match stmt_nesting(x) {
                        Some(b) => b,
                        None => return None,
                    }
                },
                None => 0,
            };
            if a >= b {
                Some(a)
            } else {
                Some(b)
            }
        },
        Stmt::While { body, .. } => match seq_nesting(body) {
            Some(n) => n.checked_add(1),
            None => None,
        },
        Stmt::For { body, .. } => match seq_nesting(body) {
            Some(n) => n.checked_add(1),
            None => None,
        },
        _ => Some(0),
    }
}

/// How deeply loops nest in a list of statements, when that fits a `usize`.
fn seq_nesting(ss: &Vec<Spanned<Stmt>>) -> (r: Option<usize>)
    ensures
        match r {
            Some(n) => n == nesting_seq(view_stmts(ss@)),
            None => nesting_seq(view_stmts(ss@)) > usize::MAX,
        },
    decreases ss, 0int,
{
    let ghost v = view_stmts(ss@);
    let mut i: usize = 0;
    let mut m: usize = 0;
    assert(v.take(0) =~= Seq::<SSpanned<SStmt>>::empty());
    while i < ss.len()
        invariant
            0 <= i <= ss@.len(),
            v == view_stmts(ss@),
            m == nesting_seq(v.take(i as int)),
        decreases ss@.len() - i,
    {
        proof {
            lemma_view_stmts_at(ss@, i as int);
        }
        assert(decreases_to!(ss => ss@));
        assert(decreases_to!(ss@ => ss@[i as int]));
        let k = stmt_nesting(&ss[i]);
        assert(v.take(i + 1).drop_last() =~= v.take(i as int));
        match k {
            Some(k) => {
                if k > m {
                    m = k;
                }
            },
            None => {
                proof {
                    lemma_nesting_at(v, i as int);
                    assert(v.take(i + 1).last() == v[i as int]);
                }
                assert(nesting_seq(v.take(i + 1)) >= loop_nesting(v[i as int].node));
                proof {
                    lemma_nesting_prefix(v, i + 1);
                }
                return None;
            },
        }
        i = i + 1;
    }
    assert(v.take(ss@.len() as int) =~= v);
    Some(m)
}

/// The nesting of a prefix is at most that of the whole list.
proof fn lemma_nesting_prefix(v: Seq<SSpanned<SStmt>>, k: int)
    requires
        0 <= k <= v.len(),
    ensures
        nesting_seq(v.take(k)) <= nesting_seq(v),
    decreases v.len() - k,
{
    if k < v.len() {
        lemma_nesting_prefix(v, k + 1);
        assert(v.take(k + 1).drop_last() =~= v.take(k));
    } else {
        assert(v.take(k) =~= v);
    }
}

impl Analyzer {
    /// Whether the loops of a function's body nest shallowly enough for the
    /// analyzer's loop counter, which is what [`Analyzer::check_function`] needs.
    pub fn can_check(&self, func: &FunctionDef) -> (r: bool)
        ensures
            r == (self@.loop_depth + nesting_seq(view_stmts(func.statements@)) <= usize::MAX),
    {
        match seq_nesting(&func.statements) {
            Some(n) => n <= usize::MAX - self.loop_depth,
            None => false,
        }
    }
}

} // verus!

//! Abstract syntax of SGS programs, tuned for the ECS shape of the language.
//!
//! Each executable node type has a mathematical counterpart (prefixed `S`) in
//! which strings are `Seq<char>` and vectors are `Seq`; the `View` of a node
//! is its counterpart. Contracts of the parser and the analyzer are stated over
//! these views.
use vstd::prelude::*;

verus! {

broadcast use vstd::seq::group_seq_axioms;

/// A byte range of the source text.
pub type Span = core::ops::Range<usize>;

/// A node together with the byte range of the source it was read from.
#[derive(Debug, PartialEq)]
pub struct Spanned<T> {
    pub node: T,
    pub span: Span,
}


/// A top-level definition.
#[derive(Debug, PartialEq, Clone)]
pub enum SgsNode {
    EntityDef(EntityDef),
    ComponentDef(ComponentDef),
    SystemDef(SystemDef),
    StructDef(StructDef),
    ExternFunctionDef(ExternFunctionDef),
}

/// An entity: a name and the components mounted on it.
#[derive(Debug, PartialEq, Clone)]
pub struct EntityDef {
    pub name: String,
    pub components: Vec<String>,
}

/// A component: a name and its parameters.
#[derive(Debug, PartialEq, Clone)]
pub struct ComponentDef {
    pub name: String,
    pub params: Vec<Param>,
}

/// A system: the components it requires and the functions it defines.
#[derive(Debug, PartialEq, Clone)]
pub struct SystemDef {
    pub name: String,
    pub required_components: Vec<RequiredComponent>,
    pub functions: Vec<FunctionDef>,
}

/// A component parameter; `ty` is the type as written.
#[derive(Debug, PartialEq, Clone)]
pub struct Param {
    pub name: String,
    pub ty: String,
}

/// A `require` line of a system.
#[derive(Debug, PartialEq, Clone)]
pub struct RequiredComponent {
    /// Whether the system may change the component.
    pub is_mut: bool,
    pub name: String,
}

/// A function of a system.
#[derive(Debug, PartialEq)]
pub struct FunctionDef {
    pub name: String,
    pub params: Vec<FnParam>,
    /// The declared return type (`-> ...`), spaces and the arrow removed.
    pub return_ty: Option<String>,
    pub statements: Vec<Spanned<Stmt>>,
}

/// A function implemented by the host engine.
#[derive(Debug, Clone, PartialEq)]
pub struct ExternFunctionDef {
    pub name: String,
    pub params: Vec<FnParam>,
    pub return_ty: Option<String>,
}

/// A struct: its name and its fields as (field name, type name).
#[derive(Debug, Clone, PartialEq)]
pub struct StructDef {
    pub name: String,
    pub fields: Vec<(String, String)>,
}

/// A parameter of a function or closure; `ty` is written without spaces.
#[derive(Debug, PartialEq, Clone)]
pub struct FnParam {
    pub is_mut: bool,
    pub name: String,
    pub ty: String,
}

/// A statement.
#[derive(Debug, PartialEq)]
pub enum Stmt {
    /// `let [mut] name = value;`
    Let { is_mut: bool, name: String, value: Expr },
    /// An assignment, possibly compound (`+=`, `++=`, ...).
    Assign(AssignStmt),
    /// An expression followed by `;`.
    Expr(Expr),
    /// `return [expr];`
    Return(Option<Expr>),
    /// A trailing expression of a block, without `;`.
    ImplicitReturn(Expr),
    /// `{ ... }`
    Block(Vec<Spanned<Stmt>>),
    /// `if cond { ... } [else ...]`; the else branch is an `If` or a `Block`.
    If { condition: Expr, then_branch: Vec<Spanned<Stmt>>, else_branch: Option<Box<Spanned<Stmt>>> },
    /// `while cond { ... }`
    While { condition: Expr, body: Vec<Spanned<Stmt>> },
    Break,
    Continue,
    /// `for [mut] item in iterable { ... }`
    For { is_mut: bool, item_name: String, iterable: Expr, body: Vec<Spanned<Stmt>> },
}

/// An assignment statement.
#[derive(Debug, PartialEq)]
pub struct AssignStmt {
    /// The assigned place: a variable and the fields walked from it.
    pub target_path: Vec<String>,
    /// An optional index into the place.
    pub index: Option<Expr>,
    /// The operator as written (`=`, `+=`, `-=`, `*=`, `/=`, `++=`).
    pub op: String,
    pub value: Expr,
}

/// An expression.
#[derive(Debug, PartialEq)]
pub enum Expr {
    /// A number literal, as written (digits, optionally `.` and digits).
    Number(String),
    StringLit(String),
    /// An interpolated string: its text pieces and embedded expressions in order.
    StringInterp(Vec<Expr>),
    /// A variable and the fields walked from it (`a.b.c`).
    Path(Vec<String>),
    Closure { params: Vec<FnParam>, body: Vec<Spanned<Stmt>> },
    Call { target: Box<Expr>, args: Vec<Expr> },
    /// `target.method(args)`
    MethodCall { target: Box<Expr>, method: String, args: Vec<Expr> },
    BinaryOp { left: Box<Expr>, op: String, right: Box<Expr> },
    Bool(bool),
    Array(Vec<Expr>),
    Index { target: Box<Expr>, index: Box<Expr> },
    StructInit { name: String, fields: Vec<(String, Expr)> },
    /// `expr as ty_name`
    Cast { expr: Box<Expr>, ty_name: String },
}

// ---------------------------------------------------------------------------
// Mathematical counterparts
// ---------------------------------------------------------------------------

pub struct SSpanned<A> {
    pub node: A,
    pub span: Span,
}

pub struct SFnParam {
    pub is_mut: bool,
    pub name: Seq<char>,
    pub ty: Seq<char>,
}

pub struct SParam {
    pub name: Seq<char>,
    pub ty: Seq<char>,
}

pub struct SRequiredComponent {
    pub is_mut: bool,
    pub name: Seq<char>,
}

pub struct SFunctionDef {
    pub name: Seq<char>,
    pub params: Seq<SFnParam>,
    pub return_ty: Option<Seq<char>>,
    pub statements: Seq<SSpanned<SStmt>>,
}

pub struct SExternFunctionDef {
    pub name: Seq<char>,
    pub params: Seq<SFnParam>,
    pub return_ty: Option<Seq<char>>,
}

pub struct SStructDef {
    pub name: Seq<char>,
    pub fields: Seq<(Seq<char>, Seq<char>)>,
}

pub enum SNode {
    EntityDef { name: Seq<char>, components: Seq<Seq<char>> },
    ComponentDef { name: Seq<char>, params: Seq<SParam> },
    SystemDef { name: Seq<char>, required_components: Seq<SRequiredComponent>, functions: Seq<SFunctionDef> },
    StructDef(SStructDef),
    ExternFunctionDef(SExternFunctionDef),
}

pub enum SStmt {
    Let { is_mut: bool, name: Seq<char>, value: SExpr },
    Assign { target_path: Seq<Seq<char>>, index: Option<SExpr>, op: Seq<char>, value: SExpr },
    Expr(SExpr),
    Return(Option<SExpr>),
    ImplicitReturn(SExpr),
    Block(Seq<SSpanned<SStmt>>),
    If { condition: SExpr, then_branch: Seq<SSpanned<SStmt>>, else_branch: Option<Box<SSpanned<SStmt>>> },
    While { condition: SExpr, body: Seq<SSpanned<SStmt>> },
    Break,
    Continue,
    For { is_mut: bool, item_name: Seq<char>, iterable: SExpr, body: Seq<SSpanned<SStmt>> },
}

pub enum SExpr {
    Number(Seq<char>),
    StringLit(Seq<char>),
    StringInterp(Seq<SExpr>),
    Path(Seq<Seq<char>>),
    Closure { params: Seq<SFnParam>, body: Seq<SSpanned<SStmt>> },
    Call { target: Box<SExpr>, args: Seq<SExpr> },
    MethodCall { target: Box<SExpr>, method: Seq<char>, args: Seq<SExpr> },
    BinaryOp { left: Box<SExpr>, op: Seq<char>, right: Box<SExpr> },
    Bool(bool),
    Array(Seq<SExpr>),
    Index { target: Box<SExpr>, index: Box<SExpr> },
    StructInit { name: Seq<char>, fields: Seq<(Seq<char>, SExpr)> },
    Cast { expr: Box<SExpr>, ty_name: Seq<char> },
}

pub open spec fn view_strings(s: Seq<String>) -> Seq<Seq<char>> {
    Seq::new(s.len(), |i: int| s[i]@)
}

pub open spec fn view_fn_param(p: FnParam) -> SFnParam {
    SFnParam { is_mut: p.is_mut, name: p.name@, ty: p.ty@ }
}

pub open spec fn view_fn_params(s: Seq<FnParam>) -> Seq<SFnParam> {
    Seq::new(s.len(), |i: int| view_fn_param(s[i]))
}

pub open spec fn view_exprs(s: Seq<Expr>) -> Seq<SExpr>
    decreases s,
{
    Seq::new(s.len(), |i: int| if 0 <= i < s.len() { view_expr(s[i]) } else { SExpr::Bool(false) })
}

pub open spec fn view_fields(s: Seq<(String, Expr)>) -> Seq<(Seq<char>, SExpr)>
    decreases s,
{
    Seq::new(
        s.len(),
        |i: int|
            if 0 <= i < s.len() {
                (s[i].0@, view_expr(s[i].1))
            } else {
                (Seq::empty(), SExpr::Bool(false))
            },
    )
}

pub open spec fn view_stmts(s: Seq<Spanned<Stmt>>) -> Seq<SSpanned<SStmt>>
    decreases s,
{
    Seq::new(
        s.len(),
        |i: int|
            if 0 <= i < s.len() {
                view_spanned_stmt(s[i])
            } else {
                SSpanned { node: SStmt::Break, span: 0..0 }
            },
    )
}

pub open spec fn view_spanned_stmt(s: Spanned<Stmt>) -> SSpanned<SStmt>
    decreases s,
{
    SSpanned { node: view_stmt(s.node), span: s.span }
}

pub open spec fn view_expr(e: Expr) -> SExpr
    decreases e,
{
    match e {
        Expr::Number(t) => SExpr::Number(t@),
        Expr::StringLit(t) => SExpr::StringLit(t@),
        Expr::StringInterp(parts) => SExpr::StringInterp(view_exprs(parts@)),
        Expr::Path(p) => SExpr::Path(view_strings(p@)),
        Expr::Closure { params, body } => SExpr::Closure {
            params: view_fn_params(params@),
            body: view_stmts(body@),
        },
        Expr::Call { target, args } => SExpr::Call {
            target: Box::new(view_expr(*target)),
            args: view_exprs(args@),
        },
        Expr::MethodCall { target, method, args } => SExpr::MethodCall {
            target: Box::new(view_expr(*target)),
            method: method@,
            args: view_exprs(args@),
        },
        Expr::BinaryOp { left, op, right } => SExpr::BinaryOp {
            left: Box::new(view_expr(*left)),
            op: op@,
            right: Box::new(view_expr(*right)),
        },
        Expr::Bool(b) => SExpr::Bool(b),
        Expr::Array(items) => SExpr::Array(view_exprs(items@)),
        Expr::Index { target, index } => SExpr::Index {
            target: Box::new(view_expr(*target)),
            index: Box::new(view_expr(*index)),
        },
        Expr::StructInit { name, fields } => SExpr::StructInit {
            name: name@,
            fields: view_fields(fields@),
        },
        Expr::Cast { expr, ty_name } => SExpr::Cast {
            expr: Box::new(view_expr(*expr)),
            ty_name: ty_name@,
        },
    }
}

pub open spec fn view_stmt(s: Stmt) -> SStmt
    decreases s,
{
    match s {
        Stmt::Let { is_mut, name, value } => SStmt::Let { is_mut, name: name@, value: view_expr(value) },
        Stmt::Assign(a) => SStmt::Assign {
            target_path: view_strings(a.target_path@),
            index: match a.index {
                Some(i) => Some(view_expr(i)),
                None => None,
            },
            op: a.op@,
            value: view_expr(a.value),
        },
        Stmt::Expr(e) => SStmt::Expr(view_expr(e)),
        Stmt::Return(e) => SStmt::Return(
            match e {
                Some(x) => Some(view_expr(x)),
                None => None,
            },
        ),
        Stmt::ImplicitReturn(e) => SStmt::ImplicitReturn(view_expr(e)),
        Stmt::Block(b) => SStmt::Block(view_stmts(b@)),
        Stmt::If { condition, then_branch, else_branch } => SStmt::If {
            condition: view_expr(condition),
            then_branch: view_stmts(then_branch@),
            else_branch: match else_branch {
                Some(b) => Some(Box::new(view_spanned_stmt(*b))),
                None => None,
            },
        },
        Stmt::While { condition, body } => SStmt::While {
            condition: view_expr(condition),
            body: view_stmts(body@),
        },
        Stmt::Break => SStmt::Break,
        Stmt::Continue => SStmt::Continue,
        Stmt::For { is_mut, item_name, iterable, body } => SStmt::For {
            is_mut,
            item_name: item_name@,
            iterable: view_expr(iterable),
            body: view_stmts(body@),
        },
    }
}

pub open spec fn view_param(p: Param) -> SParam {
    SParam { name: p.name@, ty: p.ty@ }
}

pub open spec fn view_required(r: RequiredComponent) -> SRequiredComponent {
    SRequiredComponent { is_mut: r.is_mut, name: r.name@ }
}

pub open spec fn view_opt_string(o: Option<String>) -> Option<Seq<char>> {
    match o {
        Some(s) => Some(s@),
        None => None,
    }
}

pub open spec fn view_function(f: FunctionDef) -> SFunctionDef {
    SFunctionDef {
        name: f.name@,
        params: view_fn_params(f.params@),
        return_ty: view_opt_string(f.return_ty),
        statements: view_stmts(f.statements@),
    }
}

pub open spec fn view_struct_def(d: StructDef) -> SStructDef {
    SStructDef { name: d.name@, fields: Seq::new(d.fields@.len(), |i: int| (d.fields@[i].0@, d.fields@[i].1@)) }
}

pub open spec fn view_extern(d: ExternFunctionDef) -> SExternFunctionDef {
    SExternFunctionDef {
        name: d.name@,
        params: view_fn_params(d.params@),
        return_ty: view_opt_string(d.return_ty),
    }
}

pub open spec fn view_node(n: SgsNode) -> SNode {
    match n {
        SgsNode::EntityDef(e) => SNode::EntityDef { name: e.name@, components: view_strings(e.components@) },
        SgsNode::ComponentDef(c) => SNode::ComponentDef {
            name: c.name@,
            params: Seq::new(c.params@.len(), |i: int| view_param(c.params@[i])),
        },
        SgsNode::SystemDef(s) => SNode::SystemDef {
            name: s.name@,
            required_components: Seq::new(
                s.required_components@.len(),
                |i: int| view_required(s.required_components@[i]),
            ),
            functions: Seq::new(s.functions@.len(), |i: int| view_function(s.functions@[i])),
        },
        SgsNode::StructDef(d) => SNode::StructDef(view_struct_def(d)),
        SgsNode::ExternFunctionDef(d) => SNode::ExternFunctionDef(view_extern(d)),
    }
}

pub open spec fn view_nodes(s: Seq<SgsNode>) -> Seq<SNode> {
    Seq::new(s.len(), |i: int| view_node(s[i]))
}

impl View for Expr {
    type V = SExpr;

    open spec fn view(&self) -> SExpr {
        view_expr(*self)
    }
}

impl View for Stmt {
    type V = SStmt;

    open spec fn view(&self) -> SStmt {
        view_stmt(*self)
    }
}

impl View for FnParam {
    type V = SFnParam;

    open spec fn view(&self) -> SFnParam {
        view_fn_param(*self)
    }
}

impl View for FunctionDef {
    type V = SFunctionDef;

    open spec fn view(&self) -> SFunctionDef {
        view_function(*self)
    }
}

impl View for StructDef {
    type V = SStructDef;

    open spec fn view(&self) -> SStructDef {
        view_struct_def(*self)
    }
}

impl View for SgsNode {
    type V = SNode;

    open spec fn view(&self) -> SNode {
        view_node(*self)
    }
}

// ---------------------------------------------------------------------------
// Well-formedness: every path names at least a variable.
// ---------------------------------------------------------------------------

pub open spec fn wf_exprs(s: Seq<SExpr>) -> bool
    decreases s,
{
    forall|i: int| 0 <= i < s.len() ==> wf_expr(#[trigger] s[i])
}

pub open spec fn wf_stmts(s: Seq<SSpanned<SStmt>>) -> bool
    decreases s,
{
    forall|i: int| 0 <= i < s.len() ==> wf_stmt(#[trigger] s[i].node)
}

/// Every function of a system has well-formed statements.
pub open spec fn node_wf(n: SNode) -> bool {
    match n {
        SNode::SystemDef { functions, .. } => forall|j: int|
            0 <= j < functions.len() ==> wf_stmts(#[trigger] functions[j].statements),
        _ => true,
    }
}

/// Every function of every system of a program has well-formed statements.
pub open spec fn program_wf(ns: Seq<SNode>) -> bool {
    forall|i: int| 0 <= i < ns.len() ==> node_wf(#[trigger] ns[i])
}

pub open spec fn wf_expr(e: SExpr) -> bool
    decreases e,
{
    match e {
        SExpr::Number(_) => true,
        SExpr::StringLit(_) => true,
        SExpr::StringInterp(parts) => wf_exprs(parts),
        SExpr::Path(p) => p.len() > 0,
        SExpr::Closure { params, body } => wf_stmts(body),
        SExpr::Call { target, args } => wf_expr(*target) && wf_exprs(args),
        SExpr::MethodCall { target, method, args } => wf_expr(*target) && wf_exprs(args),
        SExpr::BinaryOp { left, op, right } => wf_expr(*left) && wf_expr(*right),
        SExpr::Bool(_) => true,
        SExpr::Array(items) => wf_exprs(items),
        SExpr::Index { target, index } => wf_expr(*target) && wf_expr(*index),
        SExpr::StructInit { name, fields } => forall|i: int|
            0 <= i < fields.len() ==> wf_expr(#[trigger] fields[i].1),
        SExpr::Cast { expr, ty_name } => wf_expr(*expr),
    }
}

pub open spec fn wf_stmt(s: SStmt) -> bool
    decreases s,
{
    match s {
        SStmt::Let { is_mut, name, value } => wf_expr(value),
        SStmt::Assign { target_path, index, op, value } => {
            &&& target_path.len() > 0
            &&& match index {
                Some(i) => wf_expr(i),
                None => true,
            }
            &&& wf_expr(value)
        },
        SStmt::Expr(e) => wf_expr(e),
        SStmt::Return(e) => match e {
            Some(x) => wf_expr(x),
            None => true,
        },
        SStmt::ImplicitReturn(e) => wf_expr(e),
        SStmt::Block(b) => wf_stmts(b),
        SStmt::If { condition, then_branch, else_branch } => {
            &&& wf_expr(condition)
            &&& wf_stmts(then_branch)
            &&& match else_branch {
                Some(b) => wf_stmt(b.node),
                None => true,
            }
        },
        SStmt::While { condition, body } => wf_expr(condition) && wf_stmts(body),
        SStmt::Break => true,
        SStmt::Continue => true,
        SStmt::For { is_mut, item_name, iterable, body } => wf_expr(iterable) && wf_stmts(body),
    }
}

// ---------------------------------------------------------------------------
// The parts of a node are smaller than the node (for unfolding recursive definitions).
// ---------------------------------------------------------------------------

pub proof fn lemma_expr_parts(e: Expr)
    ensures
        match e {
            Expr::StringInterp(p) => decreases_to!(e => p@),
            Expr::Closure { params, body } => decreases_to!(e => body@),
            Expr::Call { target, args } => decreases_to!(e => args@),
            Expr::MethodCall { target, method, args } => decreases_to!(e => args@),
            Expr::Array(items) => decreases_to!(e => items@),
            Expr::StructInit { name, fields } => decreases_to!(e => fields@),
            _ => true,
        },
{
    match e {
        Expr::StringInterp(p) => {
            assert(decreases_to!(e => p));
            assert(decreases_to!(p => p@));
        },
        Expr::Closure { params, body } => {
            assert(decreases_to!(e => body));
            assert(decreases_to!(body => body@));
        },
        Expr::Call { target, args } => {
            assert(decreases_to!(e => args));
            assert(decreases_to!(args => args@));
        },
        Expr::MethodCall { target, method, args } => {
            assert(decreases_to!(e => args));
            assert(decreases_to!(args => args@));
        },
        Expr::Array(items) => {
            assert(decreases_to!(e => items));
            assert(decreases_to!(items => items@));
        },
        Expr::StructInit { name, fields } => {
            assert(decreases_to!(e => fields));
            assert(decreases_to!(fields => fields@));
        },
        _ => {},
    }
}

pub proof fn lemma_stmt_parts(s: Stmt)
    ensures
        match s {
            Stmt::Block(b) => decreases_to!(s => b@),
            Stmt::If { condition, then_branch, else_branch } => decreases_to!(s => then_branch@),
            Stmt::While { condition, body } => decreases_to!(s => body@),
            Stmt::For { is_mut, item_name, iterable, body } => decreases_to!(s => body@),
            _ => true,
        },
{
    match s {
        Stmt::Block(b) => {
            assert(decreases_to!(s => b));
            assert(decreases_to!(b => b@));
        },
        Stmt::If { condition, then_branch, else_branch } => {
            assert(decreases_to!(s => then_branch));
            assert(decreases_to!(then_branch => then_branch@));
        },
        Stmt::While { condition, body } => {
            assert(decreases_to!(s => body));
            assert(decreases_to!(body => body@));
        },
        Stmt::For { is_mut, item_name, iterable, body } => {
            assert(decreases_to!(s => body));
            assert(decreases_to!(body => body@));
        },
        _ => {},
    }
}

pub proof fn lemma_sexpr_parts(e: SExpr)
    ensures
        match e {
            SExpr::StringInterp(p) => decreases_to!(e => p),
            SExpr::Closure { params, body } => decreases_to!(e => body),
            SExpr::Call { target, args } => decreases_to!(e => args),
            SExpr::MethodCall { target, method, args } => decreases_to!(e => args),
            SExpr::Array(items) => decreases_to!(e => items),
            SExpr::StructInit { name, fields } => decreases_to!(e => fields),
            _ => true,
        },
{
}

pub proof fn lemma_sstmt_parts(s: SStmt)
    ensures
        match s {
            SStmt::Block(b) => decreases_to!(s => b),
            SStmt::If { condition, then_branch, else_branch } => decreases_to!(s => then_branch),
            SStmt::While { condition, body } => decreases_to!(s => body),
            SStmt::For { is_mut, item_name, iterable, body } => decreases_to!(s => body),
            _ => true,
        },
{
}

/// The view of an expression, one level down.
pub proof fn lemma_view_expr(e: Expr)
    ensures
        view_expr(e) == match e {
                Expr::Number(t) => SExpr::Number(t@),
                Expr::StringLit(t) => SExpr::StringLit(t@),
                Expr::StringInterp(parts) => SExpr::StringInterp(view_exprs(parts@)),
                Expr::Path(p) => SExpr::Path(view_strings(p@)),
                Expr::Closure { params, body } => SExpr::Closure {
                    params: view_fn_params(params@),
                    body: view_stmts(body@),
                },
                Expr::Call { target, args } => SExpr::Call {
                    target: Box::new(view_expr(*target)),
                    args: view_exprs(args@),
                },
                Expr::MethodCall { target, method, args } => SExpr::MethodCall {
                    target: Box::new(view_expr(*target)),
                    method: method@,
                    args: view_exprs(args@),
                },
                Expr::BinaryOp { left, op, right } => SExpr::BinaryOp {
                    left: Box::new(view_expr(*left)),
                    op: op@,
                    right: Box::new(view_expr(*right)),
                },
                Expr::Bool(b) => SExpr::Bool(b),
                Expr::Array(items) => SExpr::Array(view_exprs(items@)),
                Expr::Index { target, index } => SExpr::Index {
                    target: Box::new(view_expr(*target)),
                    index: Box::new(view_expr(*index)),
                },
                Expr::StructInit { name, fields } => SExpr::StructInit {
                    name: name@,
                    fields: view_fields(fields@),
                },
                Expr::Cast { expr, ty_name } => SExpr::Cast {
                    expr: Box::new(view_expr(*expr)),
                    ty_name: ty_name@,
                },
            },
{
    lemma_expr_parts(e);
}

/// The view of a statement, one level down.
pub proof fn lemma_view_stmt(s: Stmt)
    ensures
        view_stmt(s) == match s {
                Stmt::Let { is_mut, name, value } => SStmt::Let { is_mut, name: name@, value: view_expr(value) },
                Stmt::Assign(a) => SStmt::Assign {
                    target_path: view_strings(a.target_path@),
                    index: match a.index {
                        Some(i) => Some(view_expr(i)),
                        None => None,
                    },
                    op: a.op@,
                    value: view_expr(a.value),
                },
                Stmt::Expr(e) => SStmt::Expr(view_expr(e)),
                Stmt::Return(e) => SStmt::Return(
                    match e {
                        Some(x) => Some(view_expr(x)),
                        None => None,
                    },
                ),
                Stmt::ImplicitReturn(e) => SStmt::ImplicitReturn(view_expr(e)),
                Stmt::Block(b) => SStmt::Block(view_stmts(b@)),
                Stmt::If { condition, then_branch, else_branch } => SStmt::If {
                    condition: view_expr(condition),
                    then_branch: view_stmts(then_branch@),
                    else_branch: match else_branch {
                        Some(b) => Some(Box::new(view_spanned_stmt(*b))),
                        None => None,
                    },
                },
                Stmt::While { condition, body } => SStmt::While {
                    condition: view_expr(condition),
                    body: view_stmts(body@),
                },
                Stmt::Break => SStmt::Break,
                Stmt::Continue => SStmt::Continue,
                Stmt::For { is_mut, item_name, iterable, body } => SStmt::For {
                    is_mut,
                    item_name: item_name@,
                    iterable: view_expr(iterable),
                    body: view_stmts(body@),
                },
            },
{
    lemma_stmt_parts(s);
}

/// Well-formedness of an expression, one level down.
pub proof fn lemma_wf_expr(e: SExpr)
    ensures
        wf_expr(e) == match e {
                SExpr::Number(_) => true,
                SExpr::StringLit(_) => true,
                SExpr::StringInterp(parts) => wf_exprs(parts),
                SExpr::Path(p) => p.len() > 0,
                SExpr::Closure { params, body } => wf_stmts(body),
                SExpr::Call { target, args } => wf_expr(*target) && wf_exprs(args),
                SExpr::MethodCall { target, method, args } => wf_expr(*target) && wf_exprs(args),
                SExpr::BinaryOp { left, op, right } => wf_expr(*left) && wf_expr(*right),
                SExpr::Bool(_) => true,
                SExpr::Array(items) => wf_exprs(items),
                SExpr::Index { target, index } => wf_expr(*target) && wf_expr(*index),
                SExpr::StructInit { name, fields } => forall|i: int|
                    0 <= i < fields.len() ==> wf_expr(#[trigger] fields[i].1),
                SExpr::Cast { expr, ty_name } => wf_expr(*expr),
            },
{
    lemma_sexpr_parts(e);
}

/// Well-formedness of a statement, one level down.
pub proof fn lemma_wf_stmt(s: SStmt)
    ensures
        wf_stmt(s) == match s {
                SStmt::Let { is_mut, name, value } => wf_expr(value),
                SStmt::Assign { target_path, index, op, value } => {
                    &&& target_path.len() > 0
                    &&& match index {
                        Some(i) => wf_expr(i),
                        None => true,
                    }
                    &&& wf_expr(value)
                },
                SStmt::Expr(e) => wf_expr(e),
                SStmt::Return(e) => match e {
                    Some(x) => wf_expr(x),
                    None => true,
                },
                SStmt::ImplicitReturn(e) => wf_expr(e),
                SStmt::Block(b) => wf_stmts(b),
                SStmt::If { condition, then_branch, else_branch } => {
                    &&& wf_expr(condition)
                    &&& wf_stmts(then_branch)
                    &&& match else_branch {
                        Some(b) => wf_stmt(b.node),
                        None => true,
                    }
                },
                SStmt::While { condition, body } => wf_expr(condition) && wf_stmts(body),
                SStmt::Break => true,
                SStmt::Continue => true,
                SStmt::For { is_mut, item_name, iterable, body } => wf_expr(iterable) && wf_stmts(body),
            },
{
    lemma_sstmt_parts(s);
}

pub proof fn lemma_wf_exprs_at(s: Seq<SExpr>, i: int)
    requires
        wf_exprs(s),
        0 <= i < s.len(),
    ensures
        wf_expr(s[i]),
{
}

pub proof fn lemma_wf_stmts_at(s: Seq<SSpanned<SStmt>>, i: int)
    requires
        wf_stmts(s),
        0 <= i < s.len(),
    ensures
        wf_stmt(s[i].node),
{
}

pub proof fn lemma_view_fields_at(s: Seq<(String, Expr)>, i: int)
    requires
        0 <= i < s.len(),
    ensures
        view_fields(s).len() == s.len(),
        view_fields(s)[i] == (s[i].0@, view_expr(s[i].1)),
{
    assert(decreases_to!(s => s[i]));
    assert(decreases_to!(s[i] => s[i].1));
}

pub proof fn lemma_view_exprs_at(s: Seq<Expr>, i: int)
    requires
        0 <= i < s.len(),
    ensures
        view_exprs(s).len() == s.len(),
        view_exprs(s)[i] == view_expr(s[i]),
{
    assert(decreases_to!(s => s[i]));
}

pub proof fn lemma_view_stmts_at(s: Seq<Spanned<Stmt>>, i: int)
    requires
        0 <= i < s.len(),
    ensures
        view_stmts(s).len() == s.len(),
        view_stmts(s)[i] == view_spanned_stmt(s[i]),
        view_stmts(s)[i].node == view_stmt(s[i].node),
        view_stmts(s)[i].span == s[i].span,
{
    assert(decreases_to!(s => s[i]));
    assert(decreases_to!(s[i] => s[i].node));
}

pub proof fn lemma_sspanned_parts(s: SSpanned<SStmt>)
    ensures
        decreases_to!(s => s.node),
        match s.node {
            SStmt::Block(b) => decreases_to!(s => b),
            SStmt::If { condition, then_branch, else_branch } => decreases_to!(s => then_branch) && match else_branch {
                Some(e) => decreases_to!(s => *e),
                None => true,
            },
            SStmt::While { condition, body } => decreases_to!(s => body),
            SStmt::For { is_mut, item_name, iterable, body } => decreases_to!(s => body),
            _ => true,
        },
{
    lemma_sstmt_parts(s.node);
}

// ---------------------------------------------------------------------------
// Copies
// ---------------------------------------------------------------------------

fn copy_span(s: &Span) -> (r: Span)
    ensures
        r == *s,
{
    s.start..s.end
}

fn copy_strings(v: &Vec<String>) -> (r: Vec<String>)
    ensures
        r@ == v@,
{
    let mut r: Vec<String> = Vec::new();
    let mut i: usize = 0;
    while i < v.len()
        invariant
            i <= v@.len(),
            r@ == v@.take(i as int),
        decreases v@.len() - i,
    {
        r.push(v[i].clone());
        assert(r@ =~= v@.take(i + 1));
        i = i + 1;
    }
    assert(v@.take(v@.len() as int) =~= v@);
    r
}

fn copy_params(v: &Vec<FnParam>) -> (r: Vec<FnParam>)
    ensures
        view_fn_params(r@) == view_fn_params(v@),
{
    let mut r: Vec<FnParam> = Vec::new();
    let mut i: usize = 0;
    while i < v.len()
        invariant
            i <= v@.len(),
            r@.len() == i,
            forall|k: int| 0 <= k < i ==> #[trigger] view_fn_param(r@[k]) == view_fn_param(v@[k]),
        decreases v@.len() - i,
    {
        let p = &v[i];
        r.push(FnParam { is_mut: p.is_mut, name: p.name.clone(), ty: p.ty.clone() });
        i = i + 1;
    }
    assert(view_fn_params(r@) =~= view_fn_params(v@));
    r
}

fn copy_exprs(v: &Vec<Expr>) -> (r: Vec<Expr>)
    ensures
        view_exprs(r@) == view_exprs(v@),
    decreases v, 0int,
{
    let mut r: Vec<Expr> = Vec::new();
    let mut i: usize = 0;
    while i < v.len()
        invariant
            i <= v@.len(),
            r@.len() == i,
            forall|k: int| 0 <= k < i ==> #[trigger] view_expr(r@[k]) == view_expr(v@[k]),
        decreases v@.len() - i,
    {
        assert(decreases_to!(v => v@));
        assert(decreases_to!(v@ => v@[i as int]));
        let e = copy_expr(&v[i]);
        r.push(e);
        i = i + 1;
    }
    proof {
        if v@.len() > 0 {
            lemma_view_exprs_at(r@, 0);
            lemma_view_exprs_at(v@, 0);
        }
        assert forall|k: int| 0 <= k < v@.len() implies view_exprs(r@)[k] == view_exprs(v@)[k] by {
            lemma_view_exprs_at(r@, k);
            lemma_view_exprs_at(v@, k);
        }
        assert(view_exprs(r@).len() == view_exprs(v@).len());
    }
    assert(view_exprs(r@) =~= view_exprs(v@));
    r
}

fn copy_fields(v: &Vec<(String, Expr)>) -> (r: Vec<(String, Expr)>)
    ensures
        view_fields(r@) == view_fields(v@),
    decreases v, 0int,
{
    let mut r: Vec<(String, Expr)> = Vec::new();
    let mut i: usize = 0;
    while i < v.len()
        invariant
            i <= v@.len(),
            r@.len() == i,
            forall|k: int| 0 <= k < i ==> #[trigger] r@[k].0@ == v@[k].0@ && view_expr(r@[k].1) == view_expr(v@[k].1),
        decreases v@.len() - i,
    {
        assert(decreases_to!(v => v@));
        assert(decreases_to!(v@ => v@[i as int]));
        assert(decreases_to!(v@[i as int] => v@[i as int].1));
        let e = copy_expr(&v[i].1);
        r.push((v[i].0.clone(), e));
        i = i + 1;
    }
    assert(view_fields(r@) =~= view_fields(v@));
    r
}

fn copy_stmts(v: &Vec<Spanned<Stmt>>) -> (r: Vec<Spanned<Stmt>>)
    ensures
        view_stmts(r@) == view_stmts(v@),
    decreases v, 0int,
{
    let mut r: Vec<Spanned<Stmt>> = Vec::new();
    let mut i: usize = 0;
    while i < v.len()
        invariant
            i <= v@.len(),
            r@.len() == i,
            forall|k: int| 0 <= k < i ==> #[trigger] view_spanned_stmt(r@[k]) == view_spanned_stmt(v@[k]),
        decreases v@.len() - i,
    {
        assert(decreases_to!(v => v@));
        assert(decreases_to!(v@ => v@[i as int]));
        let st = copy_spanned(&v[i]);
        r.push(st);
        i = i + 1;
    }
    proof {
        if v@.len() > 0 {
            lemma_view_stmts_at(r@, 0);
            lemma_view_stmts_at(v@, 0);
        }
        assert forall|k: int| 0 <= k < v@.len() implies view_stmts(r@)[k] == view_stmts(v@)[k] by {
            lemma_view_stmts_at(r@, k);
            lemma_view_stmts_at(v@, k);
        }
        assert(view_stmts(r@).len() == view_stmts(v@).len());
    }
    assert(view_stmts(r@) =~= view_stmts(v@));
    r
}

fn copy_spanned(s: &Spanned<Stmt>) -> (r: Spanned<Stmt>)
    ensures
        view_spanned_stmt(r) == view_spanned_stmt(*s),
    decreases s, 1int,
{
    assert(decreases_to!(*s => s.node));
    Spanned { node: copy_stmt(&s.node), span: copy_span(&s.span) }
}

fn copy_opt_expr(e: &Option<Expr>) -> (r: Option<Expr>)
    ensures
        match (r, *e) {
            (Some(a), Some(b)) => a@ == b@,
            (None, None) => true,
            _ => false,
        },
    decreases e, 1int,
{
    match e {
        Some(x) => {
            assert(decreases_to!(*e => *x));
            Some(copy_expr(x))
        },
        None => None,
    }
}

fn copy_stmt(s: &Stmt) -> (r: Stmt)
    ensures
        r@ == s@,
    decreases s, 1int,
{
    proof {
        lemma_stmt_parts(*s);
    }
    let r = match s {
        Stmt::Let { is_mut, name, value } => Stmt::Let { is_mut: *is_mut, name: name.clone(), value: copy_expr(value) },
        Stmt::Assign(a) => {
            assert(decreases_to!(*s => *a));
            Stmt::Assign(
                AssignStmt {
                    target_path: copy_strings(&a.target_path),
                    index: copy_opt_expr(&a.index),
                    op: a.op.clone(),
                    value: copy_expr(&a.value),
                },
            )
        },
        Stmt::Expr(e) => Stmt::Expr(copy_expr(e)),
        Stmt::Return(e) => Stmt::Return(copy_opt_expr(e)),
        Stmt::ImplicitReturn(e) => Stmt::ImplicitReturn(copy_expr(e)),
        Stmt::Block(b) => Stmt::Block(copy_stmts(b)),
        Stmt::If { condition, then_branch, else_branch } => {
            let eb = match else_branch {
                Some(b) => {
                    assert(decreases_to!(*s => *else_branch));
                    assert(decreases_to!(*else_branch => **b));
                    Some(Box::new(copy_spanned(b)))
                },
                None => None,
            };
            Stmt::If { condition: copy_expr(condition), then_branch: copy_stmts(then_branch), else_branch: eb }
        },
        Stmt::While { condition, body } => Stmt::While { condition: copy_expr(condition), body: copy_stmts(body) },
        Stmt::Break => Stmt::Break,
        Stmt::Continue => Stmt::Continue,
        Stmt::For { is_mut, item_name, iterable, body } => Stmt::For {
            is_mut: *is_mut,
            item_name: item_name.clone(),
            iterable: copy_expr(iterable),
            body: copy_stmts(body),
        },
    };
    proof {
        lemma_view_stmt(r);
        lemma_view_stmt(*s);
    }
    r
}

fn copy_expr(e: &Expr) -> (r: Expr)
    ensures
        r@ == e@,
    decreases e, 1int,
{
    proof {
        lemma_expr_parts(*e);
    }
    let r = match e {
        Expr::Number(n) => Expr::Number(n.clone()),
        Expr::StringLit(t) => Expr::StringLit(t.clone()),
        Expr::StringInterp(parts) => Expr::StringInterp(copy_exprs(parts)),
        Expr::Path(p) => Expr::Path(copy_strings(p)),
        Expr::Closure { params, body } => Expr::Closure { params: copy_params(params), body: copy_stmts(body) },
        Expr::Call { target, args } => Expr::Call { target: Box::new(copy_expr(target)), args: copy_exprs(args) },
        Expr::MethodCall { target, method, args } => Expr::MethodCall {
            target: Box::new(copy_expr(target)),
            method: method.clone(),
            args: copy_exprs(args),
        },
        Expr::BinaryOp { left, op, right } => Expr::BinaryOp {
            left: Box::new(copy_expr(left)),
            op: op.clone(),
            right: Box::new(copy_expr(right)),
        },
        Expr::Bool(b) => Expr::Bool(*b),
        Expr::Array(items) => Expr::Array(copy_exprs(items)),
        Expr::Index { target, index } => Expr::Index {
            target: Box::new(copy_expr(target)),
            index: Box::new(copy_expr(index)),
        },
        Expr::StructInit { name, fields } => Expr::StructInit { name: name.clone(), fields: copy_fields(fields) },
        Expr::Cast { expr, ty_name } => Expr::Cast { expr: Box::new(copy_expr(expr)), ty_name: ty_name.clone() },
    };
    proof {
        lemma_view_expr(r);
        lemma_view_expr(*e);
    }
    r
}

impl Clone for Expr {
    /// A copy with the same view.
    fn clone(&self) -> (r: Self)
        ensures
            r@ == self@,
    {
        copy_expr(self)
    }
}

impl Clone for Stmt {
    /// A copy with the same view.
    fn clone(&self) -> (r: Self)
        ensures
            r@ == self@,
    {
        copy_stmt(self)
    }
}

impl Clone for Spanned<Stmt> {
    /// A copy of the statement, at the same span.
    fn clone(&self) -> (r: Self)
        ensures
            view_spanned_stmt(r) == view_spanned_stmt(*self),
    {
        copy_spanned(self)
    }
}

impl Clone for AssignStmt {
    /// A copy of each part.
    fn clone(&self) -> (r: Self)
        ensures
            view_strings(r.target_path@) == view_strings(self.target_path@),
            r.op@ == self.op@,
            r.value@ == self.value@,
    {
        AssignStmt {
            target_path: copy_strings(&self.target_path),
            index: copy_opt_expr(&self.index),
            op: self.op.clone(),
            value: copy_expr(&self.value),
        }
    }
}

impl Clone for FunctionDef {
    /// A copy with the same view.
    fn clone(&self) -> (r: Self)
        ensures
            r@ == self@,
    {
        let r = FunctionDef {
            name: self.name.clone(),
            params: copy_params(&self.params),
            return_ty: match &self.return_ty {
                Some(t) => Some(t.clone()),
                None => None,
            },
            statements: copy_stmts(&self.statements),
        };
        r
    }
}

} // verus!

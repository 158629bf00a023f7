//! The typing rules of SGS, as spec functions over the analyzer's model.
//!
//! `infer` gives the type of an expression and the analyzer's state after the
//! diagnostics it raises; `check` gives the state after checking a statement.
use crate::ast::{SExpr, SSpanned, SStmt, Span};
use crate::text::nat_text;
use crate::types::{SType, bind, lookup, type_text};
use vstd::prelude::*;

verus! {

broadcast use vstd::seq::group_seq_axioms;

/// A variable as the analyzer sees it.
pub struct SSymbol {
    pub is_mut: bool,
    pub ty: SType,
    pub decl_span: Span,
}

/// A diagnostic that stops a program from running.
pub struct SError {
    pub title: Seq<char>,
    pub message: Seq<char>,
    pub span: Span,
    pub note: Option<(Seq<char>, Span)>,
}

/// A diagnostic about a likely mistake.
pub struct SWarning {
    pub title: Seq<char>,
    pub message: Seq<char>,
    pub span: Span,
}

/// The state of the analyzer.
pub struct AModel {
    /// Nested scopes, innermost last; each binds names to variables.
    pub scopes: Seq<Seq<(Seq<char>, SSymbol)>>,
    pub errors: Seq<SError>,
    pub warnings: Seq<SWarning>,
    /// The declared return type of the function being checked.
    pub return_ty: Option<SType>,
    /// How many loops enclose the statement being checked.
    pub loop_depth: nat,
    /// The arrays iterated by the enclosing `for` loops, innermost last.
    pub iterating: Seq<Seq<char>>,
    /// The declared structs and their fields.
    pub structs: Seq<(Seq<char>, Seq<(Seq<char>, SType)>)>,
}

pub open spec fn plain(title: Seq<char>, message: Seq<char>, span: Span) -> SError {
    SError { title, message, span, note: None }
}

pub open spec fn msg1(a: Seq<char>, x: Seq<char>, b: Seq<char>) -> Seq<char> {
    a + x + b
}

pub open spec fn msg2(a: Seq<char>, x: Seq<char>, b: Seq<char>, y: Seq<char>, c: Seq<char>) -> Seq<char> {
    a + x + b + y + c
}

pub open spec fn msg3(
    a: Seq<char>,
    x: Seq<char>,
    b: Seq<char>,
    y: Seq<char>,
    c: Seq<char>,
    z: Seq<char>,
    d: Seq<char>,
) -> Seq<char> {
    a + x + b + y + c + z + d
}

/// Two states that differ at most in their diagnostics.
pub open spec fn frame(a: AModel, b: AModel) -> bool {
    &&& a.scopes == b.scopes
    &&& a.return_ty == b.return_ty
    &&& a.loop_depth == b.loop_depth
    &&& a.iterating == b.iterating
    &&& a.structs == b.structs
}

impl AModel {
    pub open spec fn err(self, e: SError) -> AModel {
        AModel { errors: self.errors.push(e), ..self }
    }

    pub open spec fn warn(self, w: SWarning) -> AModel {
        AModel { warnings: self.warnings.push(w), ..self }
    }

    pub open spec fn push_scope(self) -> AModel {
        AModel { scopes: self.scopes.push(Seq::empty()), ..self }
    }

    pub open spec fn pop_scope(self) -> AModel {
        if self.scopes.len() == 0 {
            self
        } else {
            AModel { scopes: self.scopes.drop_last(), ..self }
        }
    }

    /// Binds `name` in the innermost scope.
    pub open spec fn define(self, name: Seq<char>, is_mut: bool, ty: SType, span: Span) -> AModel {
        let last = self.scopes.len() - 1;
        AModel {
            scopes: self.scopes.update(
                last,
                bind(self.scopes[last], name, SSymbol { is_mut, ty, decl_span: span }),
            ),
            ..self
        }
    }
}

/// The variable a name refers to: its binding in the innermost scope that binds it.
pub open spec fn resolve(scopes: Seq<Seq<(Seq<char>, SSymbol)>>, name: Seq<char>) -> Option<SSymbol>
    decreases scopes.len(),
{
    if scopes.len() == 0 {
        None
    } else {
        match lookup(scopes.last(), name) {
            Some(s) => Some(s),
            None => resolve(scopes.drop_last(), name),
        }
    }
}

/// Whether the types of a value and of the place it goes to clash.
pub open spec fn clash(actual: SType, expected: SType) -> bool {
    actual != SType::Unknown && expected != SType::Unknown && actual != expected
}

/// The name of an iterated array that an expression refers to, if it is a path.
pub open spec fn warned_root(m: AModel, target: SExpr) -> Option<Seq<char>> {
    match target {
        SExpr::Path(p) => if m.iterating.contains(p[0]) {
            Some(p[0])
        } else {
            None
        },
        _ => None,
    }
}

/// The state after the warning about an in-loop change of an iterated array.
pub open spec fn warn_if_iterated(
    m: AModel,
    target: SExpr,
    title: Seq<char>,
    a: Seq<char>,
    b: Seq<char>,
    sp: Span,
) -> AModel {
    match warned_root(m, target) {
        Some(n) => m.warn(SWarning { title, message: msg1(a, n, b), span: sp }),
        None => m,
    }
}

// ---------------------------------------------------------------------------
// Expressions
// ---------------------------------------------------------------------------

/// The type of an expression, and the analyzer's state after the diagnostics it raises.
pub open spec fn infer(m: AModel, e: SExpr, sp: Span) -> (AModel, SType)
    decreases e, 3int,
{
    match e {
        SExpr::Number(_) => (m, SType::Number),
        SExpr::StringLit(_) => (m, SType::String),
        SExpr::StringInterp(parts) => (infer_seq(m, parts, sp), SType::String),
        SExpr::Path(path) => match resolve(m.scopes, path[0]) {
            None => (
                m.err(plain("变量未定义"@, msg1("找不到变量: '"@, path[0], "'"@), sp)),
                SType::Unknown,
            ),
            Some(sym) => walk_read(m, sym.ty, path.drop_first(), sp),
        },
        SExpr::Bool(_) => (m, SType::Bool),
        SExpr::Array(items) => if items.len() == 0 {
            (m, SType::Array(Box::new(SType::Any)))
        } else {
            let (m1, first) = infer(m, items[0], sp);
            (infer_items(m1, items.drop_first(), first, sp), SType::Array(Box::new(first)))
        },
        SExpr::Index { target, index } => {
            let (m1, tt) = infer(m, *target, sp);
            let (m2, it) = infer(m1, *index, sp);
            let m3 = if it != SType::Unknown && it != SType::Number {
                m2.err(plain("索引错误"@, "数组的索引必须是 'number' 类型"@, sp))
            } else {
                m2
            };
            match tt {
                SType::Array(inner) => (m3, *inner),
                _ => if tt != SType::Unknown {
                    (
                        m3.err(
                            plain(
                                "类型错误"@,
                                msg1("只能对数组类型进行索引访问，但得到了 '"@, type_text(tt), "'"@),
                                sp,
                            ),
                        ),
                        SType::Unknown,
                    )
                } else {
                    (m3, SType::Unknown)
                },
            }
        },
        SExpr::BinaryOp { .. } => infer_binary(m, e, sp),
        SExpr::Call { .. } => infer_call(m, e, sp),
        SExpr::MethodCall { .. } => infer_method(m, e, sp),
        SExpr::StructInit { .. } => infer_struct(m, e, sp),
        _ => (m, SType::Unknown),
    }
}

/// Infers each expression in turn, discarding the types.
pub open spec fn infer_seq(m: AModel, es: Seq<SExpr>, sp: Span) -> AModel
    decreases es, 0int,
{
    if es.len() == 0 {
        m
    } else {
        infer(infer_seq(m, es.drop_last(), sp), es.last(), sp).0
    }
}

/// Infers the later elements of an array, each of which must have the type of the first.
pub open spec fn infer_items(m: AModel, items: Seq<SExpr>, first: SType, sp: Span) -> AModel
    decreases items, 0int,
{
    if items.len() == 0 {
        m
    } else {
        let m1 = infer_items(m, items.drop_last(), first, sp);
        let (m2, t) = infer(m1, items.last(), sp);
        if t != SType::Unknown && t != first {
            m2.err(
                plain(
                    "数组类型不一致"@,
                    msg2("数组元素类型必须统一，期待 '"@, type_text(first), "'，但得到了 '"@, type_text(t), "'"@),
                    sp,
                ),
            )
        } else {
            m2
        }
    }
}

/// The type reached by reading the fields `fields` from a value of type `t`.
pub open spec fn walk_read(m: AModel, t: SType, fields: Seq<Seq<char>>, sp: Span) -> (AModel, SType)
    decreases fields.len(),
{
    if fields.len() == 0 {
        (m, t)
    } else {
        let f = fields[0];
        match t {
            SType::Struct(sn) => match lookup(m.structs, sn) {
                Some(fm) => match lookup(fm, f) {
                    Some(ft) => walk_read(m, ft, fields.drop_first(), sp),
                    None => (
                        m.err(plain("字段不存在"@, msg2("结构体 '"@, sn, "' 没有 '"@, f, "' 字段"@), sp)),
                        SType::Unknown,
                    ),
                },
                None => (m, SType::Unknown),
            },
            _ => (
                m.err(
                    plain(
                        "属性读取错误"@,
                        msg2("无法读取 '"@, type_text(t), "' 上的属性 '."@, f, "'，因为它不是结构体"@),
                        sp,
                    ),
                ),
                SType::Unknown,
            ),
        }
    }
}

pub open spec fn is_arith_op(op: Seq<char>) -> bool {
    op == "+"@ || op == "-"@ || op == "*"@ || op == "/"@
}

pub open spec fn is_eq_op(op: Seq<char>) -> bool {
    op == "=="@ || op == "!="@
}

pub open spec fn is_rel_op(op: Seq<char>) -> bool {
    op == "<"@ || op == ">"@ || op == "<="@ || op == ">="@
}

/// The type of a binary operation: `++` joins strings; `+ - * /` take numbers
/// (with a hint when `+` meets a string); `== !=` compare values of one type;
/// `< > <= >=` compare numbers.
pub open spec fn infer_binary(m: AModel, e: SExpr, sp: Span) -> (AModel, SType)
    decreases e, 2int,
{
    match e {
        SExpr::BinaryOp { left, op, right } => {
            let (m1, l) = infer(m, *left, sp);
            let (m2, r) = infer(m1, *right, sp);
            let lt = type_text(l);
            let rt = type_text(r);
            if l == SType::Unknown || r == SType::Unknown {
                (m2, SType::Unknown)
            } else if op == "++"@ {
                if l != SType::String || r != SType::String {
                    (
                        m2.err(
                            plain(
                                "类型错误"@,
                                msg2("'++' 只能用于连接两个字符串，但这里是 '"@, lt, "' 和 '"@, rt, "'"@),
                                sp,
                            ),
                        ),
                        SType::Unknown,
                    )
                } else {
                    (m2, SType::String)
                }
            } else if is_arith_op(op) {
                if op == "+"@ && (l == SType::String || r == SType::String) {
                    (
                        m2.err(
                            SError {
                                title: "操作符错误"@,
                                message: msg2("不能使用 '+' 来操作字符串 ('"@, lt, "' + '"@, rt, "')"@),
                                span: sp,
                                note: Some(("SGS 使用 '++' 来进行字符串拼接，请尝试将 '+' 替换为 '++'"@, sp)),
                            },
                        ),
                        SType::Unknown,
                    )
                } else if l != SType::Number || r != SType::Number {
                    (
                        m2.err(
                            plain(
                                "类型错误"@,
                                msg3("操作符 '"@, op, "' 只能用于两个数字，但这里是 '"@, lt, "' 和 '"@, rt, "'"@),
                                sp,
                            ),
                        ),
                        SType::Unknown,
                    )
                } else {
                    (m2, SType::Number)
                }
            } else if is_eq_op(op) {
                if l != r {
                    (
                        m2.err(plain("类型不匹配"@, msg2("无法比较 '"@, lt, "' 和 '"@, rt, "'"@), sp)),
                        SType::Unknown,
                    )
                } else {
                    (m2, SType::Bool)
                }
            } else if is_rel_op(op) {
                if l != SType::Number || r != SType::Number {
                    (
                        m2.err(
                            plain(
                                "类型错误"@,
                                msg3("操作符 '"@, op, "' 只能用于两个数字，但这里写的是 '"@, lt, "' 和 '"@, rt, "'"@),
                                sp,
                            ),
                        ),
                        SType::Unknown,
                    )
                } else {
                    (m2, SType::Bool)
                }
            } else {
                (m2, SType::Unknown)
            }
        },
        _ => (m, SType::Unknown),
    }
}

/// The error for a call with the wrong number of arguments.
pub open spec fn arity_error(expected: nat, given: nat, sp: Span) -> SError {
    plain("参数数量错误"@, msg2("函数需要 "@, nat_text(expected), " 个参数，但传入了 "@, nat_text(given), " 个"@), sp)
}

/// The error for an argument (numbered from 1) whose type clashes with its parameter.
pub open spec fn argument_error(number: nat, expected: SType, actual: SType, sp: Span) -> SError {
    plain(
        "参数类型错误"@,
        msg3("第 "@, nat_text(number), " 个参数应该是 '"@, type_text(expected), "'，但传入了 '"@, type_text(actual), "'"@),
        sp,
    )
}

/// Checks the arguments `args` against the parameters `params`, the first
/// argument being argument number `first + 1`.
pub open spec fn check_args(m: AModel, args: Seq<SExpr>, params: Seq<SType>, first: nat, sp: Span) -> AModel
    decreases args, 0int,
{
    if args.len() == 0 {
        m
    } else {
        let i = args.len() - 1;
        let m1 = check_args(m, args.drop_last(), params, first, sp);
        let (m2, t) = infer(m1, args.last(), sp);
        if clash(t, params[i]) {
            m2.err(argument_error(first + args.len(), params[i], t, sp))
        } else {
            m2
        }
    }
}

/// The type of a call: builtins (of type `any`) take anything and give `void`;
/// a function checks its arguments and gives its return type.
pub open spec fn infer_call(m: AModel, e: SExpr, sp: Span) -> (AModel, SType)
    decreases e, 2int,
{
    match e {
        SExpr::Call { target, args } => {
            let (m1, tt) = infer(m, *target, sp);
            if tt == SType::Any {
                (infer_seq(m1, args, sp), SType::Void)
            } else {
                match tt {
                    SType::Function { params, ret } => if args.len() != params.len() {
                        (m1.err(arity_error(params.len(), args.len(), sp)), *ret)
                    } else {
                        (check_args(m1, args, params, 0, sp), *ret)
                    },
                    _ => if tt != SType::Unknown {
                        (
                            m1.err(plain("调用错误"@, msg1("为啥要把 '"@, type_text(tt), "' 类型的变量当作函数调用"@), sp)),
                            SType::Unknown,
                        )
                    } else {
                        (m1, SType::Unknown)
                    },
                }
            }
        },
        _ => (m, SType::Unknown),
    }
}

/// The error for a number-typed argument of a builtin method that is not a number.
pub open spec fn not_number(m: AModel, t: SType, message: Seq<char>, sp: Span) -> AModel {
    if t != SType::Unknown && t != SType::Number {
        m.err(plain("参数类型错误"@, message, sp))
    } else {
        m
    }
}

/// The error for a builtin method called on a value that lacks it.
pub open spec fn no_method(a: Seq<char>, tt: SType, b: Seq<char>, sp: Span) -> SError {
    plain("类型错误"@, msg1(a, type_text(tt), b), sp)
}

/// The type of a method call: the builtin array and string methods, or a
/// function of the program called with the target as its first argument.
pub open spec fn infer_method(m: AModel, e: SExpr, sp: Span) -> (AModel, SType)
    decreases e, 2int,
{
    match e {
        SExpr::MethodCall { target, method, args } => {
            let (m1, tt) = infer(m, *target, sp);
            if tt == SType::Unknown {
                (m1, SType::Unknown)
            } else if method == "len"@ {
                method_len(m1, e, tt, sp)
            } else if method == "push"@ {
                method_push(m1, e, tt, sp)
            } else if method == "pop"@ {
                method_pop(m1, e, tt, sp)
            } else if method == "slice"@ {
                method_slice(m1, e, tt, sp)
            } else if method == "remove"@ {
                method_remove(m1, e, tt, sp)
            } else if method == "insert"@ {
                method_insert(m1, e, tt, sp)
            } else if method == "clear"@ {
                method_clear(m1, e, tt, sp)
            } else {
                method_of_program(m1, e, tt, sp)
            }
        },
        _ => (m, SType::Unknown),
    }
}

/// The builtin method `len()`: the length of an array or string.
pub open spec fn method_len(m1: AModel, e: SExpr, tt: SType, sp: Span) -> (AModel, SType)
    decreases e, 1int,
{
    match e {
        SExpr::MethodCall { target, method, args } => {
                let m2 = if args.len() != 0 {
                    m1.err(plain("参数错误"@, "len() 不需要参数"@, sp))
                } else {
                    m1
                };
                match tt {
                    SType::Array(_) => (m2, SType::Number),
                    SType::String => (m2, SType::Number),
                    _ => (m2.err(no_method("类型 '"@, tt, "' 没有 len() 方法"@, sp)), SType::Unknown),
                }},
        _ => (m1, SType::Unknown),
    }
}

/// The builtin method `push(x)`: appends to an array.
pub open spec fn method_push(m1: AModel, e: SExpr, tt: SType, sp: Span) -> (AModel, SType)
    decreases e, 1int,
{
    match e {
        SExpr::MethodCall { target, method, args } => {
                if args.len() != 1 {
                    (m1.err(plain("参数错误"@, "push() 需要 1 个参数"@, sp)), SType::Unknown)
                } else {
                    let m2 = warn_if_iterated(
                        m1,
                        *target,
                        "遍历中追加元素"@,
                        "在 for 循环内部调用 '"@,
                        ".push()'。注意：这只会修改原数组，新元素不会参与本次遍历。"@,
                        sp,
                    );
                    match tt {
                        SType::Array(inner) => {
                            let (m3, at) = infer(m2, args[0], sp);
                            if clash(at, *inner) {
                                (
                                    m3.err(
                                        plain(
                                            "类型不匹配"@,
                                            msg2("无法将 '"@, type_text(at), "' push 到 '"@, type_text(*inner), "' 的数组中"@),
                                            sp,
                                        ),
                                    ),
                                    SType::Void,
                                )
                            } else {
                                (m3, SType::Void)
                            }
                        },
                        _ => (m2.err(no_method("只有数组有 push() 方法，但得到了 '"@, tt, "'"@, sp)), SType::Unknown),
                    }
                }},
        _ => (m1, SType::Unknown),
    }
}

/// The builtin method `pop()`: removes the last element of an array.
pub open spec fn method_pop(m1: AModel, e: SExpr, tt: SType, sp: Span) -> (AModel, SType)
    decreases e, 1int,
{
    match e {
        SExpr::MethodCall { target, method, args } => {
                if args.len() != 0 {
                    (m1.err(plain("参数错误"@, "pop() 不需要参数"@, sp)), SType::Unknown)
                } else {
                    let m2 = warn_if_iterated(
                        m1,
                        *target,
                        "遍历中弹出元素"@,
                        "在 for 循环内部调用 '"@,
                        ".pop()'。注意：循环仍会按照进入前的快照长度继续执行。"@,
                        sp,
                    );
                    match tt {
                        SType::Array(inner) => (m2, *inner),
                        _ => (m2.err(no_method("只有数组有 pop() 方法，但得到了 '"@, tt, "'"@, sp)), SType::Unknown),
                    }
                }},
        _ => (m1, SType::Unknown),
    }
}

/// The builtin method `slice(start, end)`: part of an array or string.
pub open spec fn method_slice(m1: AModel, e: SExpr, tt: SType, sp: Span) -> (AModel, SType)
    decreases e, 1int,
{
    match e {
        SExpr::MethodCall { target, method, args } => {
                if args.len() != 2 {
                    (m1.err(plain("参数错误"@, "slice() 需要 2 个参数 (start, end)"@, sp)), SType::Unknown)
                } else {
                    let (m2, st) = infer(m1, args[0], sp);
                    let (m3, et) = infer(m2, args[1], sp);
                    let m4 = if (st != SType::Unknown && st != SType::Number) || (et != SType::Unknown && et
                        != SType::Number) {
                        m3.err(plain("参数类型错误"@, "slice() 的参数必须是数字"@, sp))
                    } else {
                        m3
                    };
                    match tt {
                        SType::Array(_) => (m4, tt),
                        SType::String => (m4, tt),
                        _ => (m4.err(no_method("类型 '"@, tt, "' 没有 slice() 方法"@, sp)), SType::Unknown),
                    }
                }},
        _ => (m1, SType::Unknown),
    }
}

/// The builtin method `remove(i)`: removes an element of an array.
pub open spec fn method_remove(m1: AModel, e: SExpr, tt: SType, sp: Span) -> (AModel, SType)
    decreases e, 1int,
{
    match e {
        SExpr::MethodCall { target, method, args } => {
                if args.len() != 1 {
                    (m1.err(plain("参数错误"@, "remove() 需要 1 个参数 (index)"@, sp)), SType::Unknown)
                } else {
                    let m2 = warn_if_iterated(
                        m1,
                        *target,
                        "遍历中移除元素"@,
                        "在 for 循环内部调用 '"@,
                        ".remove()'。注意：循环长度已锁定，这可能导致逻辑偏移。"@,
                        sp,
                    );
                    let (m3, it) = infer(m2, args[0], sp);
                    let m4 = not_number(m3, it, "remove() 的索引必须是数字"@, sp);
                    match tt {
                        SType::Array(inner) => (m4, *inner),
                        _ => (m4.err(no_method("只有数组有 remove() 方法，但得到了 '"@, tt, "'"@, sp)), SType::Unknown),
                    }
                }},
        _ => (m1, SType::Unknown),
    }
}

/// The builtin method `insert(i, x)`: inserts into an array.
pub open spec fn method_insert(m1: AModel, e: SExpr, tt: SType, sp: Span) -> (AModel, SType)
    decreases e, 1int,
{
    match e {
        SExpr::MethodCall { target, method, args } => {
                if args.len() != 2 {
                    (m1.err(plain("参数错误"@, "insert() 需要 2 个参数 (index, value)"@, sp)), SType::Unknown)
                } else {
                    let m2 = warn_if_iterated(m1, *target, "遍历中插入元素"@, "在 for 循环内部调用 '"@, ".insert()'。"@, sp);
                    let (m3, it) = infer(m2, args[0], sp);
                    let m4 = not_number(m3, it, "insert() 的索引必须是数字"@, sp);
                    match tt {
                        SType::Array(inner) => {
                            let (m5, at) = infer(m4, args[1], sp);
                            if clash(at, *inner) {
                                (
                                    m5.err(
                                        plain(
                                            "类型不匹配"@,
                                            msg2("无法将 '"@, type_text(at), "' 插入到 '"@, type_text(*inner), "' 的数组中"@),
                                            sp,
                                        ),
                                    ),
                                    SType::Void,
                                )
                            } else {
                                (m5, SType::Void)
                            }
                        },
                        _ => (m4.err(no_method("只有数组有 insert() 方法，得到了 '"@, tt, "'"@, sp)), SType::Unknown),
                    }
                }},
        _ => (m1, SType::Unknown),
    }
}

/// The builtin method `clear()`: empties an array.
pub open spec fn method_clear(m1: AModel, e: SExpr, tt: SType, sp: Span) -> (AModel, SType)
    decreases e, 1int,
{
    match e {
        SExpr::MethodCall { target, method, args } => {
                let m2 = if args.len() != 0 {
                    m1.err(plain("参数错误"@, "clear() 不需要参数"@, sp))
                } else {
                    m1
                };
                let m3 = warn_if_iterated(
                    m2,
                    *target,
                    "遍历中清空数组"@,
                    "在 for 循环内部调用 '"@,
                    ".clear()'。当前的遍历会继续基于旧的快照执行完。"@,
                    sp,
                );
                match tt {
                    SType::Array(_) => (m3, SType::Void),
                    _ => (m3.err(no_method("只有数组有 clear() 方法，得到了 '"@, tt, "'"@, sp)), SType::Unknown),
                }},
        _ => (m1, SType::Unknown),
    }
}

/// A function of the program called as a method: the target is its first argument.
pub open spec fn method_of_program(m1: AModel, e: SExpr, tt: SType, sp: Span) -> (AModel, SType)
    decreases e, 1int,
{
    match e {
        SExpr::MethodCall { target, method, args } => {
                match resolve(m1.scopes, method) {
                    Some(sym) => match sym.ty {
                        SType::Function { params, ret } => if args.len() + 1 != params.len() {
                            (m1.err(arity_error(params.len(), args.len() + 1, sp)), *ret)
                        } else {
                            let m2 = if clash(tt, params[0]) {
                                m1.err(argument_error(1, params[0], tt, sp))
                            } else {
                                m1
                            };
                            (check_args(m2, args, params.skip(1), 1, sp), *ret)
                        },
                        _ => (m1.err(plain("方法不存在"@, msg1("找不到方法: '"@, method, "'"@), sp)), SType::Unknown),
                    },
                    None => (m1.err(plain("方法不存在"@, msg1("找不到方法: '"@, method, "'"@), sp)), SType::Unknown),
                }
            },
        _ => (m1, SType::Unknown),
    }
}


/// The names given in a struct literal.
pub open spec fn given_names(fields: Seq<(Seq<char>, SExpr)>) -> Seq<Seq<char>> {
    Seq::new(fields.len(), |i: int| fields[i].0)
}

/// Infers the given fields of a struct literal of struct `name` against its declared fields `bp`.
pub open spec fn infer_given_fields(
    m: AModel,
    name: Seq<char>,
    bp: Seq<(Seq<char>, SType)>,
    fields: Seq<(Seq<char>, SExpr)>,
    sp: Span,
) -> AModel
    decreases fields, 0int,
{
    if fields.len() == 0 {
        m
    } else {
        let m1 = infer_given_fields(m, name, bp, fields.drop_last(), sp);
        let (f_name, f_expr) = fields.last();
        let (m2, t) = infer(m1, f_expr, sp);
        match lookup(bp, f_name) {
            Some(expected) => if clash(t, expected) {
                m2.err(
                    plain(
                        "字段类型不匹配"@,
                        msg3("实例化 '"@, name, "' 时，字段 '"@, f_name, "' 期待 '"@, type_text(expected), "'，但得到了 '"@)
                            + type_text(t) + "'"@,
                        sp,
                    ),
                )
            } else {
                m2
            },
            None => m2.err(plain("不存在的字段"@, msg2("结构体 '"@, name, "' 根本没有名为 '"@, f_name, "' 的字段"@), sp)),
        }
    }
}

/// Reports each declared field (among `bp`) that the literal does not give.
pub open spec fn check_missing(
    m: AModel,
    name: Seq<char>,
    bp: Seq<(Seq<char>, SType)>,
    given: Seq<Seq<char>>,
    sp: Span,
) -> AModel
    decreases bp.len(),
{
    if bp.len() == 0 {
        m
    } else {
        let m1 = check_missing(m, name, bp.drop_last(), given, sp);
        let req = bp.last().0;
        if given.contains(req) {
            m1
        } else {
            m1.err(plain("漏写字段"@, msg2("实例化 '"@, name, "' 时，缺少必要的字段: '"@, req, "'"@), sp))
        }
    }
}

/// The type of a struct literal.
pub open spec fn infer_struct(m: AModel, e: SExpr, sp: Span) -> (AModel, SType)
    decreases e, 2int,
{
    match e {
        SExpr::StructInit { name, fields } => match lookup(m.structs, name) {
            None => (m.err(plain("未知类型"@, msg1("找不到名为 '"@, name, "' 的结构体"@), sp)), SType::Unknown),
            Some(bp) => {
                let m1 = infer_given_fields(m, name, bp, fields, sp);
                (check_missing(m1, name, bp, given_names(fields), sp), SType::Struct(name))
            },
        },
        _ => (m, SType::Unknown),
    }
}

// ---------------------------------------------------------------------------
// Statements
// ---------------------------------------------------------------------------

/// The type reached by assigning through the fields `fields` of a place of type `t`.
pub open spec fn walk_assign(structs: Seq<(Seq<char>, Seq<(Seq<char>, SType)>)>, t: SType, fields: Seq<Seq<char>>) -> SType
    decreases fields.len(),
{
    if fields.len() == 0 {
        t
    } else {
        match t {
            SType::Struct(sn) => match lookup(structs, sn) {
                Some(fm) => match lookup(fm, fields[0]) {
                    Some(ft) => walk_assign(structs, ft, fields.drop_first()),
                    None => SType::Unknown,
                },
                None => walk_assign(structs, t, fields.drop_first()),
            },
            _ => SType::Unknown,
        }
    }
}

/// The state after checking that a returned value has the declared return type.
pub open spec fn verify_return(m: AModel, actual: SType, sp: Span) -> AModel {
    match m.return_ty {
        Some(expected) => if expected != SType::Unknown && actual != SType::Unknown && expected != actual {
            m.err(
                plain(
                    "返回值类型错误"@,
                    msg2("函数声明返回 '"@, type_text(expected), "'，但实际返回了 '"@, type_text(actual), "'"@),
                    sp,
                ),
            )
        } else {
            m
        },
        None => m,
    }
}

/// The state after checking that a condition is a `bool`.
pub open spec fn check_condition(m: AModel, t: SType, what: Seq<char>, sp: Span) -> AModel {
    if t != SType::Unknown && t != SType::Bool {
        m.err(plain("条件类型错误"@, msg2("'"@, what, "' 的条件必须是 'bool' 类型，但得到了 '"@, type_text(t), "'"@), sp))
    } else {
        m
    }
}

/// The state after checking an assignment.
pub open spec fn check_assign(
    m: AModel,
    target_path: Seq<Seq<char>>,
    index: Option<SExpr>,
    value: SExpr,
    sp: Span,
) -> AModel {
    let (m1, rhs) = infer(m, value, sp);
    let name = target_path[0];
    let m2 = if m1.iterating.contains(name) {
        m1.warn(
            SWarning {
                title: "遍历中修改集合"@,
                message: msg1(
                    "\n                            你正在对 '"@,
                    name,
                    "' 进行 for 循环遍历，同时又在这里修改了它。\n                            SGS 使用快照机制，这不会导致死循环，但新增/删除的元素不会在当前循环中生效，请注意逻辑预期"@,
                ),
                span: sp,
            },
        )
    } else {
        m1
    };
    match resolve(m2.scopes, name) {
        None => m2.err(plain("找不到变量"@, msg1("找不到变量: '"@, name, "'"@), sp)),
        Some(sym) => {
            let m3 = if !sym.is_mut {
                m2.err(
                    SError {
                        title: "不可变真的可变吗？"@,
                        message: msg1("无法对不可变变量 '"@, name, "' 重新赋值。"@),
                        span: sp,
                        note: Some(
                            (
                                msg2("Note：变量 '"@, name, "' 在这里被声明为不可变，可尝试改为 let mut "@, name, " = ..."@),
                                sym.decl_span,
                            ),
                        ),
                    },
                )
            } else {
                m2
            };
            let expected = walk_assign(m3.structs, sym.ty, target_path.drop_first());
            let (m4, target) = match index {
                Some(ie) => {
                    let (m5, it) = infer(m3, ie, sp);
                    let m6 = if it != SType::Unknown && it != SType::Number {
                        m5.err(plain("索引错误"@, "数组索引必须是 'number' 类型"@, sp))
                    } else {
                        m5
                    };
                    match expected {
                        SType::Array(inner) => (m6, *inner),
                        _ => if expected != SType::Unknown {
                            (
                                m6.err(plain("类型错误"@, msg1("无法对非数组类型 '"@, type_text(expected), "' 进行索引赋值"@), sp)),
                                SType::Unknown,
                            )
                        } else {
                            (m6, SType::Unknown)
                        },
                    }
                },
                None => (m3, expected),
            };
            if clash(rhs, target) {
                m4.err(plain("类型不匹配"@, msg2("试图将 '"@, type_text(rhs), "' 赋值给 '"@, type_text(target), "' 类型的坑位"@), sp))
            } else {
                m4
            }
        },
    }
}

/// The state after checking a statement.
pub open spec fn check(m: AModel, s: SSpanned<SStmt>) -> AModel
    decreases s, 1int,
{
    let sp = s.span;
    match s.node {
        SStmt::Let { is_mut, name, value } => {
            let (m1, t) = infer(m, value, sp);
            m1.define(name, is_mut, t, sp)
        },
        SStmt::Assign { target_path, index, op, value } => check_assign(m, target_path, index, value, sp),
        SStmt::Expr(e) => infer(m, e, sp).0,
        SStmt::If { condition, then_branch, else_branch } => {
            let (m1, t) = infer(m, condition, sp);
            let m2 = check_condition(m1, t, "if"@, sp);
            let m3 = check_seq(m2.push_scope(), then_branch).pop_scope();
            match else_branch {
                Some(b) => check(m3, *b),
                None => m3,
            }
        },
        SStmt::Return(e) => match e {
            Some(x) => {
                let (m1, t) = infer(m, x, sp);
                verify_return(m1, t, sp)
            },
            None => verify_return(m, SType::Void, sp),
        },
        SStmt::ImplicitReturn(x) => {
            let (m1, t) = infer(m, x, sp);
            verify_return(m1, t, sp)
        },
        SStmt::Block(stmts) => check_seq(m.push_scope(), stmts).pop_scope(),
        SStmt::While { condition, body } => {
            let (m1, t) = infer(m, condition, sp);
            let m2 = check_condition(m1, t, "while"@, sp);
            let m3 = check_seq(AModel { loop_depth: m2.loop_depth + 1, ..m2 }.push_scope(), body).pop_scope();
            AModel { loop_depth: (m3.loop_depth - 1) as nat, ..m3 }
        },
        SStmt::For { is_mut, item_name, iterable, body } => {
            let (m1, it) = infer(m, iterable, sp);
            let (m2, item) = match it {
                SType::Array(inner) => (m1, *inner),
                _ => if it != SType::Unknown {
                    (
                        m1.err(plain("类型错误"@, msg1("'for' 循环只能遍历数组，但得到了 '"@, type_text(it), "'"@), sp)),
                        SType::Unknown,
                    )
                } else {
                    (m1, SType::Unknown)
                },
            };
            let m3 = AModel { loop_depth: m2.loop_depth + 1, ..m2 }.push_scope().define(item_name, is_mut, item, sp);
            let locked = match iterable {
                SExpr::Path(p) => p.len() == 1,
                _ => false,
            };
            let m4 = if locked {
                AModel { iterating: m3.iterating.push(iterable->Path_0[0]), ..m3 }
            } else {
                m3
            };
            let m5 = check_seq(m4, body).pop_scope();
            let m6 = AModel { loop_depth: (m5.loop_depth - 1) as nat, ..m5 };
            if locked {
                AModel { iterating: m6.iterating.drop_last(), ..m6 }
            } else {
                m6
            }
        },
        SStmt::Break => if m.loop_depth == 0 {
            m.err(plain("非法控制流"@, "'break' 只能在循环体内使用"@, sp))
        } else {
            m
        },
        SStmt::Continue => if m.loop_depth == 0 {
            m.err(plain("非法控制流"@, "'continue' 只能在循环体内使用"@, sp))
        } else {
            m
        },
    }
}

/// The state after checking statements in turn.
pub open spec fn check_seq(m: AModel, ss: Seq<SSpanned<SStmt>>) -> AModel
    decreases ss, 0int,
{
    if ss.len() == 0 {
        m
    } else {
        check(check_seq(m, ss.drop_last()), ss.last())
    }
}

/// The deepest nesting of loops within a statement.
pub open spec fn loop_nesting(s: SStmt) -> nat
    decreases s,
{
    match s {
        SStmt::Block(b) => nesting_seq(b),
        SStmt::If { condition, then_branch, else_branch } => {
            let a = nesting_seq(then_branch);
            let b = match else_branch {
                Some(x) => loop_nesting(x.node),
                None => 0,
            };
            if a >= b {
                a
            } else {
                b
            }
        },
        SStmt::While { condition, body } => 1 + nesting_seq(body),
        SStmt::For { is_mut, item_name, iterable, body } => 1 + nesting_seq(body),
        _ => 0,
    }
}

pub open spec fn nesting_seq(ss: Seq<SSpanned<SStmt>>) -> nat
    decreases ss,
{
    if ss.len() == 0 {
        0
    } else {
        let a = nesting_seq(ss.drop_last());
        let b = loop_nesting(ss.last().node);
        if a >= b {
            a
        } else {
            b
        }
    }
}

pub proof fn lemma_nesting_at(ss: Seq<SSpanned<SStmt>>, i: int)
    requires
        0 <= i < ss.len(),
    ensures
        loop_nesting(ss[i].node) <= nesting_seq(ss),
    decreases ss.len(),
{
    if i < ss.len() - 1 {
        lemma_nesting_at(ss.drop_last(), i);
        assert(ss.drop_last()[i] == ss[i]);
    }
}

} // verus!

//! Properties of the analyzer that hold across its operations.
use crate::ast::{SExpr, SSpanned, SStmt, Span};
use crate::types::{lemma_lookup_bind, SType};
use crate::typing::{
    check, check_args, check_assign, check_condition, check_missing, check_seq, infer, infer_binary, infer_call,
    infer_given_fields, infer_items, infer_method, infer_seq, infer_struct, method_clear, method_insert, method_len,
    method_of_program, method_pop, method_push, method_remove, method_slice, not_number, plain, resolve,
    verify_return, walk_read, warn_if_iterated, frame, AModel, SError, SSymbol,
};
use vstd::prelude::*;

verus! {

broadcast use vstd::seq::group_seq_axioms;

/// A name declared in the innermost scope resolves to the variable just
/// declared; every other name resolves as it did before.
pub proof fn law_define_then_resolve(
    m: AModel,
    name: Seq<char>,
    is_mut: bool,
    ty: SType,
    span: Span,
    other: Seq<char>,
)
    requires
        m.scopes.len() >= 1,
    ensures
        resolve(m.define(name, is_mut, ty, span).scopes, name) == Some(SSymbol { is_mut, ty, decl_span: span }),
        other != name ==> resolve(m.define(name, is_mut, ty, span).scopes, other) == resolve(m.scopes, other),
{
    let d = m.define(name, is_mut, ty, span);
    let last = m.scopes.len() - 1;
    let sym = SSymbol { is_mut, ty, decl_span: span };
    lemma_lookup_bind(m.scopes[last], name, sym, name);
    lemma_lookup_bind(m.scopes[last], name, sym, other);
    assert(d.scopes.drop_last() =~= m.scopes.drop_last());
    assert(d.scopes.last() == crate::types::bind(m.scopes[last], name, sym));
}

/// What is declared in a scope is forgotten when the scope ends: opening a
/// scope, declaring in it and closing it leaves the scopes as they were.
pub proof fn law_scope_forgets(m: AModel, name: Seq<char>, is_mut: bool, ty: SType, span: Span)
    ensures
        m.push_scope().define(name, is_mut, ty, span).pop_scope().scopes == m.scopes,
{
    let d = m.push_scope().define(name, is_mut, ty, span);
    assert(d.scopes.drop_last() =~= m.scopes);
}

/// `break` and `continue` are refused outside a loop, with the error that says
/// so, and change nothing inside one.
pub proof fn law_loop_control(m: AModel, span: Span)
    ensures
        m.loop_depth == 0 ==> check(m, SSpanned { node: SStmt::Break, span }) == m.err(
            plain("非法控制流"@, "'break' 只能在循环体内使用"@, span),
        ),
        m.loop_depth == 0 ==> check(m, SSpanned { node: SStmt::Continue, span }) == m.err(
            plain("非法控制流"@, "'continue' 只能在循环体内使用"@, span),
        ),
        m.loop_depth > 0 ==> check(m, SSpanned { node: SStmt::Break, span }) == m,
        m.loop_depth > 0 ==> check(m, SSpanned { node: SStmt::Continue, span }) == m,
{
}

// ---------------------------------------------------------------------------
// Diagnostics are only ever added
// ---------------------------------------------------------------------------

/// Every error and every warning of `a` is still in `b`, at the same place.
pub open spec fn keeps(a: AModel, b: AModel) -> bool {
    &&& a.errors.len() <= b.errors.len()
    &&& forall|i: int| 0 <= i < a.errors.len() ==> #[trigger] b.errors[i] == a.errors[i]
    &&& a.warnings.len() <= b.warnings.len()
    &&& forall|i: int| 0 <= i < a.warnings.len() ==> #[trigger] b.warnings[i] == a.warnings[i]
}

proof fn lemma_walk_read_keeps(m: AModel, t: SType, fields: Seq<Seq<char>>, sp: Span)
    ensures
        keeps(m, walk_read(m, t, fields, sp).0),
        frame(m, walk_read(m, t, fields, sp).0),
    decreases fields.len(),
{
    if fields.len() > 0 {
        lemma_walk_read_keeps(m, t, fields.drop_first(), sp);
        match t {
            SType::Struct(sn) => match crate::types::lookup(m.structs, sn) {
                Some(fm) => match crate::types::lookup(fm, fields[0]) {
                    Some(ft) => lemma_walk_read_keeps(m, ft, fields.drop_first(), sp),
                    None => {},
                },
                None => {},
            },
            _ => {},
        }
    }
}

proof fn lemma_infer_keeps(m: AModel, e: SExpr, sp: Span)
    ensures
        keeps(m, infer(m, e, sp).0),
        frame(m, infer(m, e, sp).0),
    decreases e, 3int,
{
    match e {
        SExpr::StringInterp(parts) => lemma_infer_seq_keeps(m, parts, sp),
        SExpr::Path(path) => match resolve(m.scopes, path[0]) {
            None => {},
            Some(sym) => lemma_walk_read_keeps(m, sym.ty, path.drop_first(), sp),
        },
        SExpr::Array(items) => if items.len() > 0 {
            assert(decreases_to!(items => items[0]));
            lemma_infer_keeps(m, items[0], sp);
            let (m1, first) = infer(m, items[0], sp);
            assert(decreases_to!(items => items.drop_first()));
            lemma_infer_items_keeps(m1, items.drop_first(), first, sp);
        },
        SExpr::Index { target, index } => {
            lemma_infer_keeps(m, *target, sp);
            let (m1, tt) = infer(m, *target, sp);
            lemma_infer_keeps(m1, *index, sp);
        },
        SExpr::BinaryOp { .. } => lemma_binary_keeps(m, e, sp),
        SExpr::Call { .. } => lemma_call_keeps(m, e, sp),
        SExpr::MethodCall { .. } => lemma_method_keeps(m, e, sp),
        SExpr::StructInit { .. } => lemma_struct_keeps(m, e, sp),
        _ => {},
    }
}

proof fn lemma_infer_seq_keeps(m: AModel, es: Seq<SExpr>, sp: Span)
    ensures
        keeps(m, infer_seq(m, es, sp)),
        frame(m, infer_seq(m, es, sp)),
    decreases es, 0int,
{
    if es.len() > 0 {
        assert(decreases_to!(es => es.drop_last()));
        lemma_infer_seq_keeps(m, es.drop_last(), sp);
        assert(decreases_to!(es => es[es.len() - 1]));
        lemma_infer_keeps(infer_seq(m, es.drop_last(), sp), es.last(), sp);
    }
}

proof fn lemma_infer_items_keeps(m: AModel, items: Seq<SExpr>, first: SType, sp: Span)
    ensures
        keeps(m, infer_items(m, items, first, sp)),
        frame(m, infer_items(m, items, first, sp)),
    decreases items, 0int,
{
    if items.len() > 0 {
        assert(decreases_to!(items => items.drop_last()));
        lemma_infer_items_keeps(m, items.drop_last(), first, sp);
        assert(decreases_to!(items => items[items.len() - 1]));
        lemma_infer_keeps(infer_items(m, items.drop_last(), first, sp), items.last(), sp);
    }
}

proof fn lemma_binary_keeps(m: AModel, e: SExpr, sp: Span)
    ensures
        keeps(m, infer_binary(m, e, sp).0),
        frame(m, infer_binary(m, e, sp).0),
    decreases e, 2int,
{
    match e {
        SExpr::BinaryOp { left, op, right } => {
            lemma_infer_keeps(m, *left, sp);
            let (m1, l) = infer(m, *left, sp);
            lemma_infer_keeps(m1, *right, sp);
        },
        _ => {},
    }
}

proof fn lemma_check_args_keeps(m: AModel, args: Seq<SExpr>, params: Seq<SType>, first: nat, sp: Span)
    ensures
        keeps(m, check_args(m, args, params, first, sp)),
        frame(m, check_args(m, args, params, first, sp)),
    decreases args, 0int,
{
    if args.len() > 0 {
        assert(decreases_to!(args => args.drop_last()));
        lemma_check_args_keeps(m, args.drop_last(), params, first, sp);
        assert(decreases_to!(args => args[args.len() - 1]));
        lemma_infer_keeps(check_args(m, args.drop_last(), params, first, sp), args.last(), sp);
    }
}

proof fn lemma_call_keeps(m: AModel, e: SExpr, sp: Span)
    ensures
        keeps(m, infer_call(m, e, sp).0),
        frame(m, infer_call(m, e, sp).0),
    decreases e, 2int,
{
    match e {
        SExpr::Call { target, args } => {
            lemma_infer_keeps(m, *target, sp);
            let (m1, tt) = infer(m, *target, sp);
            if tt == SType::Any {
                lemma_infer_seq_keeps(m1, args, sp);
            } else {
                match tt {
                    SType::Function { params, ret } => if args.len() == params.len() {
                        lemma_check_args_keeps(m1, args, params, 0, sp);
                    },
                    _ => {},
                }
            }
        },
        _ => {},
    }
}

proof fn lemma_method_keeps(m: AModel, e: SExpr, sp: Span)
    ensures
        keeps(m, infer_method(m, e, sp).0),
        frame(m, infer_method(m, e, sp).0),
    decreases e, 2int,
{
    match e {
        SExpr::MethodCall { target, method, args } => {
            lemma_infer_keeps(m, *target, sp);
            let (m1, tt) = infer(m, *target, sp);
            lemma_method_len_keeps(m1, e, tt, sp);
            lemma_method_push_keeps(m1, e, tt, sp);
            lemma_method_pop_keeps(m1, e, tt, sp);
            lemma_method_slice_keeps(m1, e, tt, sp);
            lemma_method_remove_keeps(m1, e, tt, sp);
            lemma_method_insert_keeps(m1, e, tt, sp);
            lemma_method_clear_keeps(m1, e, tt, sp);
            lemma_method_program_keeps(m1, e, tt, sp);
        },
        _ => {},
    }
}

proof fn lemma_method_len_keeps(m1: AModel, e: SExpr, tt: SType, sp: Span)
    ensures
        keeps(m1, method_len(m1, e, tt, sp).0),
        frame(m1, method_len(m1, e, tt, sp).0),
    decreases e, 1int,
{
}

proof fn lemma_method_push_keeps(m1: AModel, e: SExpr, tt: SType, sp: Span)
    ensures
        keeps(m1, method_push(m1, e, tt, sp).0),
        frame(m1, method_push(m1, e, tt, sp).0),
    decreases e, 1int,
{
    match e {
        SExpr::MethodCall { target, method, args } => if args.len() == 1 {
            let m2 = warn_if_iterated(m1, *target, "遍历中追加元素"@, "在 for 循环内部调用 '"@,
                ".push()'。注意：这只会修改原数组，新元素不会参与本次遍历。"@, sp);
            assert(decreases_to!(args => args[0]));
            lemma_infer_keeps(m2, args[0], sp);
        },
        _ => {},
    }
}

proof fn lemma_method_pop_keeps(m1: AModel, e: SExpr, tt: SType, sp: Span)
    ensures
        keeps(m1, method_pop(m1, e, tt, sp).0),
        frame(m1, method_pop(m1, e, tt, sp).0),
    decreases e, 1int,
{
}

proof fn lemma_method_slice_keeps(m1: AModel, e: SExpr, tt: SType, sp: Span)
    ensures
        keeps(m1, method_slice(m1, e, tt, sp).0),
        frame(m1, method_slice(m1, e, tt, sp).0),
    decreases e, 1int,
{
    match e {
        SExpr::MethodCall { target, method, args } => if args.len() == 2 {
            assert(decreases_to!(args => args[0]));
            assert(decreases_to!(args => args[1]));
            lemma_infer_keeps(m1, args[0], sp);
            let (m2, st) = infer(m1, args[0], sp);
            lemma_infer_keeps(m2, args[1], sp);
        },
        _ => {},
    }
}

proof fn lemma_method_remove_keeps(m1: AModel, e: SExpr, tt: SType, sp: Span)
    ensures
        keeps(m1, method_remove(m1, e, tt, sp).0),
        frame(m1, method_remove(m1, e, tt, sp).0),
    decreases e, 1int,
{
    match e {
        SExpr::MethodCall { target, method, args } => if args.len() == 1 {
            let m2 = warn_if_iterated(m1, *target, "遍历中移除元素"@, "在 for 循环内部调用 '"@,
                ".remove()'。注意：循环长度已锁定，这可能导致逻辑偏移。"@, sp);
            assert(decreases_to!(args => args[0]));
            lemma_infer_keeps(m2, args[0], sp);
        },
        _ => {},
    }
}

proof fn lemma_method_insert_keeps(m1: AModel, e: SExpr, tt: SType, sp: Span)
    ensures
        keeps(m1, method_insert(m1, e, tt, sp).0),
        frame(m1, method_insert(m1, e, tt, sp).0),
    decreases e, 1int,
{
    match e {
        SExpr::MethodCall { target, method, args } => if args.len() == 2 {
            let m2 = warn_if_iterated(m1, *target, "遍历中插入元素"@, "在 for 循环内部调用 '"@, ".insert()'。"@, sp);
            assert(decreases_to!(args => args[0]));
            assert(decreases_to!(args => args[1]));
            lemma_infer_keeps(m2, args[0], sp);
            let (m3, it) = infer(m2, args[0], sp);
            let m4 = not_number(m3, it, "insert() 的索引必须是数字"@, sp);
            lemma_infer_keeps(m4, args[1], sp);
        },
        _ => {},
    }
}

proof fn lemma_method_clear_keeps(m1: AModel, e: SExpr, tt: SType, sp: Span)
    ensures
        keeps(m1, method_clear(m1, e, tt, sp).0),
        frame(m1, method_clear(m1, e, tt, sp).0),
    decreases e, 1int,
{
}

proof fn lemma_method_program_keeps(m1: AModel, e: SExpr, tt: SType, sp: Span)
    ensures
        keeps(m1, method_of_program(m1, e, tt, sp).0),
        frame(m1, method_of_program(m1, e, tt, sp).0),
    decreases e, 1int,
{
    match e {
        SExpr::MethodCall { target, method, args } => match resolve(m1.scopes, method) {
            Some(sym) => match sym.ty {
                SType::Function { params, ret } => if args.len() + 1 == params.len() {
                    let m2 = if crate::typing::clash(tt, params[0]) {
                        m1.err(crate::typing::argument_error(1, params[0], tt, sp))
                    } else {
                        m1
                    };
                    lemma_check_args_keeps(m2, args, params.skip(1), 1, sp);
                },
                _ => {},
            },
            None => {},
        },
        _ => {},
    }
}

proof fn lemma_given_fields_keeps(
    m: AModel,
    name: Seq<char>,
    bp: Seq<(Seq<char>, SType)>,
    fields: Seq<(Seq<char>, SExpr)>,
    sp: Span,
)
    ensures
        keeps(m, infer_given_fields(m, name, bp, fields, sp)),
        frame(m, infer_given_fields(m, name, bp, fields, sp)),
    decreases fields, 0int,
{
    if fields.len() > 0 {
        assert(decreases_to!(fields => fields.drop_last()));
        lemma_given_fields_keeps(m, name, bp, fields.drop_last(), sp);
        let m1 = infer_given_fields(m, name, bp, fields.drop_last(), sp);
        let last = fields[fields.len() - 1];
        assert(decreases_to!(fields => last));
        assert(decreases_to!(last => last.1));
        lemma_infer_keeps(m1, last.1, sp);
    }
}

proof fn lemma_missing_keeps(m: AModel, name: Seq<char>, bp: Seq<(Seq<char>, SType)>, given: Seq<Seq<char>>, sp: Span)
    ensures
        keeps(m, check_missing(m, name, bp, given, sp)),
        frame(m, check_missing(m, name, bp, given, sp)),
    decreases bp.len(),
{
    if bp.len() > 0 {
        lemma_missing_keeps(m, name, bp.drop_last(), given, sp);
    }
}

proof fn lemma_struct_keeps(m: AModel, e: SExpr, sp: Span)
    ensures
        keeps(m, infer_struct(m, e, sp).0),
        frame(m, infer_struct(m, e, sp).0),
    decreases e, 2int,
{
    match e {
        SExpr::StructInit { name, fields } => match crate::types::lookup(m.structs, name) {
            None => {},
            Some(bp) => {
                lemma_given_fields_keeps(m, name, bp, fields, sp);
                let m1 = infer_given_fields(m, name, bp, fields, sp);
                lemma_missing_keeps(m1, name, bp, crate::typing::given_names(fields), sp);
            },
        },
        _ => {},
    }
}

/// Typing an expression changes nothing but the diagnostics, and only adds
/// to them: every error and warning already raised stays, in its place.
pub proof fn law_infer_keeps_diagnostics(m: AModel, e: SExpr, sp: Span)
    ensures
        keeps(m, infer(m, e, sp).0),
        frame(m, infer(m, e, sp).0),
{
    lemma_infer_keeps(m, e, sp);
}

proof fn lemma_check_assign_keeps(m: AModel, target_path: Seq<Seq<char>>, index: Option<SExpr>, value: SExpr, sp: Span)
    ensures
        keeps(m, check_assign(m, target_path, index, value, sp)),
{
    lemma_infer_keeps(m, value, sp);
    match index {
        Some(ie) => {
            assert forall|mm: AModel| #![auto] keeps(m, mm) ==> keeps(m, infer(mm, ie, sp).0) by {
                lemma_infer_keeps(mm, ie, sp);
            }
        },
        None => {},
    }
}

proof fn lemma_check_keeps(m: AModel, s: SSpanned<SStmt>)
    ensures
        keeps(m, check(m, s)),
    decreases s, 1int,
{
    let sp = s.span;
    match s.node {
        SStmt::Let { is_mut, name, value } => lemma_infer_keeps(m, value, sp),
        SStmt::Assign { target_path, index, op, value } => lemma_check_assign_keeps(m, target_path, index, value, sp),
        SStmt::Expr(e) => lemma_infer_keeps(m, e, sp),
        SStmt::If { condition, then_branch, else_branch } => {
            lemma_infer_keeps(m, condition, sp);
            let (m1, t) = infer(m, condition, sp);
            let m2 = check_condition(m1, t, "if"@, sp);
            lemma_check_seq_keeps(m2.push_scope(), then_branch);
            let m3 = check_seq(m2.push_scope(), then_branch).pop_scope();
            match else_branch {
                Some(b) => {
                    assert(decreases_to!(s => s.node));
                    lemma_check_keeps(m3, *b);
                },
                None => {},
            }
        },
        SStmt::Return(e) => match e {
            Some(x) => lemma_infer_keeps(m, x, sp),
            None => {},
        },
        SStmt::ImplicitReturn(x) => lemma_infer_keeps(m, x, sp),
        SStmt::Block(stmts) => lemma_check_seq_keeps(m.push_scope(), stmts),
        SStmt::While { condition, body } => {
            lemma_infer_keeps(m, condition, sp);
            let (m1, t) = infer(m, condition, sp);
            let m2 = check_condition(m1, t, "while"@, sp);
            lemma_check_seq_keeps(AModel { loop_depth: m2.loop_depth + 1, ..m2 }.push_scope(), body);
        },
        SStmt::For { is_mut, item_name, iterable, body } => {
            lemma_infer_keeps(m, iterable, sp);
            let (m1, it) = infer(m, iterable, sp);
            let (m2, item) = match it {
                SType::Array(inner) => (m1, *inner),
                _ => if it != SType::Unknown {
                    (
                        m1.err(plain("类型错误"@, crate::typing::msg1("'for' 循环只能遍历数组，但得到了 '"@, crate::types::type_text(it), "'"@), sp)),
                        SType::Unknown,
                    )
                } else {
                    (m1, SType::Unknown)
                },
            };
            let m3 = AModel { loop_depth: m2.loop_depth + 1, ..m2 }.push_scope().define(item_name, is_mut, item, sp);
            let locked = match iterable {
                SExpr::Path(p) => p.len() == 1,
                _ => false,
            };
            let m4 = if locked {
                AModel { iterating: m3.iterating.push(iterable->Path_0[0]), ..m3 }
            } else {
                m3
            };
            lemma_check_seq_keeps(m4, body);
        },
        _ => {},
    }
}

proof fn lemma_check_seq_keeps(m: AModel, ss: Seq<SSpanned<SStmt>>)
    ensures
        keeps(m, check_seq(m, ss)),
    decreases ss, 0int,
{
    if ss.len() > 0 {
        assert(decreases_to!(ss => ss.drop_last()));
        lemma_check_seq_keeps(m, ss.drop_last());
        assert(decreases_to!(ss => ss[ss.len() - 1]));
        lemma_check_keeps(check_seq(m, ss.drop_last()), ss.last());
    }
}

/// Checking statements only adds diagnostics: every error and warning
/// already raised stays, in its place.
pub proof fn law_check_keeps_diagnostics(m: AModel, ss: Seq<SSpanned<SStmt>>)
    ensures
        keeps(m, check_seq(m, ss)),
{
    lemma_check_seq_keeps(m, ss);
}

/// The error raised for an assignment to the variable `name`, declared at
/// `decl` without `mut`, at `sp`.
pub open spec fn immutable_error(name: Seq<char>, decl: Span, sp: Span) -> SError {
    SError {
        title: "不可变真的可变吗？"@,
        message: crate::typing::msg1("无法对不可变变量 '"@, name, "' 重新赋值。"@),
        span: sp,
        note: Some(
            (
                crate::typing::msg2("Note：变量 '"@, name, "' 在这里被声明为不可变，可尝试改为 let mut "@, name, " = ..."@),
                decl,
            ),
        ),
    }
}

/// An assignment to a variable declared without `mut` is refused: once it is
/// checked, the errors hold the one that says so, at the assignment, with a
/// note at the declaration.
pub proof fn law_immutable_assignment_refused(
    m: AModel,
    target_path: Seq<Seq<char>>,
    index: Option<SExpr>,
    op: Seq<char>,
    value: SExpr,
    sp: Span,
)
    requires
        target_path.len() > 0,
        resolve(m.scopes, target_path[0]) matches Some(sym) && !sym.is_mut,
    ensures
        exists|i: int|
            0 <= i < check(m, SSpanned { node: SStmt::Assign { target_path, index, op, value }, span: sp }).errors.len()
                && check(m, SSpanned { node: SStmt::Assign { target_path, index, op, value }, span: sp }).errors[i]
                == immutable_error(target_path[0], resolve(m.scopes, target_path[0])->0.decl_span, sp),
{
    let st = SSpanned { node: SStmt::Assign { target_path, index, op, value }, span: sp };
    let name = target_path[0];
    let sym = resolve(m.scopes, name)->0;
    lemma_infer_keeps(m, value, sp);
    let (m1, rhs) = infer(m, value, sp);
    let m2 = if m1.iterating.contains(name) {
        m1.warn(
            crate::typing::SWarning {
                title: "遍历中修改集合"@,
                message: crate::typing::msg1(
                    "\n                            你正在对 '"@,
                    name,
                    "' 进行 for 循环遍历，同时又在这里修改了它。\n                            SGS 使用快照机制，这不会导致死循环，但新增/删除的元素不会在当前循环中生效，请注意逻辑预期"@,
                ),
                span: sp,
            },
        )
    } else {
        m1
    };
    assert(m2.scopes == m.scopes);
    let e = immutable_error(name, sym.decl_span, sp);
    let m3 = m2.err(e);
    let k = m2.errors.len() as int;
    assert(m3.errors[k] == e);
    let r = check(m, st);
    match index {
        Some(ie) => {
            lemma_infer_keeps(m3, ie, sp);
        },
        None => {},
    }
    assert(k < r.errors.len() && r.errors[k] == e);
}

/// `+` between operands of which one is a string is refused, with a note that
/// strings are joined with `++`; the result's type is unknown.
pub proof fn law_plus_on_strings_refused(m: AModel, left: SExpr, right: SExpr, sp: Span)
    requires
        ({
            let (m1, l) = infer(m, left, sp);
            let (m2, r) = infer(m1, right, sp);
            &&& l != SType::Unknown && r != SType::Unknown
            &&& l == SType::String || r == SType::String
        }),
    ensures
        ({
            let (m1, l) = infer(m, left, sp);
            let (m2, r) = infer(m1, right, sp);
            infer(m, SExpr::BinaryOp { left: Box::new(left), op: "+"@, right: Box::new(right) }, sp) == (
                m2.err(
                    SError {
                        title: "操作符错误"@,
                        message: crate::typing::msg2(
                            "不能使用 '+' 来操作字符串 ('"@,
                            crate::types::type_text(l),
                            "' + '"@,
                            crate::types::type_text(r),
                            "')"@,
                        ),
                        span: sp,
                        note: Some(("SGS 使用 '++' 来进行字符串拼接，请尝试将 '+' 替换为 '++'"@, sp)),
                    },
                ),
                SType::Unknown,
            )
        }),
{
    let e = SExpr::BinaryOp { left: Box::new(left), op: "+"@, right: Box::new(right) };
    assert(infer(m, e, sp) == infer_binary(m, e, sp));
    assert("+"@ != "++"@) by {
        reveal_strlit("+");
        reveal_strlit("++");
    }
    assert(crate::typing::is_arith_op("+"@));
}

// ---------------------------------------------------------------------------
// Calls: one error per clashing argument
// ---------------------------------------------------------------------------

/// The errors for arguments of types `ts` against the parameters `params`, the
/// first argument being number `first + 1`: one per argument whose type clashes
/// with its parameter's, in order.
pub open spec fn clash_errors(ts: Seq<SType>, params: Seq<SType>, first: nat, sp: Span) -> Seq<SError>
    decreases ts.len(),
{
    if ts.len() == 0 {
        Seq::empty()
    } else {
        let i = ts.len() - 1;
        clash_errors(ts.drop_last(), params, first, sp) + if crate::typing::clash(ts[i], params[i]) {
            seq![crate::typing::argument_error(first + ts.len(), params[i], ts[i], sp)]
        } else {
            Seq::empty()
        }
    }
}

/// Each argument, typed in any state that differs from `m` only in its
/// diagnostics, raises no error and has the type given for it in `ts`.
pub open spec fn quiet_args(m: AModel, args: Seq<SExpr>, ts: Seq<SType>, sp: Span) -> bool {
    &&& ts.len() == args.len()
    &&& forall|mm: AModel, i: int|
        0 <= i < args.len() && frame(m, mm) ==> #[trigger] infer(mm, args[i], sp).0.errors == mm.errors
            && infer(mm, args[i], sp).1 == ts[i]
}

/// Checking arguments that raise no errors themselves adds exactly one error
/// per argument whose type clashes with its parameter's, in order, and none
/// for the others.
pub proof fn law_argument_errors(
    m: AModel,
    args: Seq<SExpr>,
    params: Seq<SType>,
    ts: Seq<SType>,
    first: nat,
    sp: Span,
)
    requires
        quiet_args(m, args, ts, sp),
        params.len() >= args.len(),
    ensures
        check_args(m, args, params, first, sp).errors == m.errors + clash_errors(ts, params, first, sp),
    decreases args.len(),
{
    if args.len() == 0 {
        assert(m.errors + Seq::<SError>::empty() =~= m.errors);
    } else {
        let n = args.len() - 1;
        let a0 = args.drop_last();
        let t0 = ts.drop_last();
        assert forall|mm: AModel, i: int| 0 <= i < a0.len() && frame(m, mm) implies #[trigger] infer(mm, a0[i], sp).0.errors
            == mm.errors && infer(mm, a0[i], sp).1 == t0[i] by {
            assert(a0[i] == args[i]);
        }
        law_argument_errors(m, a0, params, t0, first, sp);
        lemma_check_args_keeps(m, a0, params, first, sp);
        let m1 = check_args(m, a0, params, first, sp);
        assert(args.last() == args[n]);
        assert(infer(m1, args[n], sp).0.errors == m1.errors && infer(m1, args[n], sp).1 == ts[n]);
        let c = clash_errors(t0, params, first, sp);
        if crate::typing::clash(ts[n], params[n]) {
            assert(m.errors + c.push(crate::typing::argument_error(first + args.len(), params[n], ts[n], sp)) =~= (m.errors + c).push(
                crate::typing::argument_error(first + args.len(), params[n], ts[n], sp),
            ));
        } else {
            assert(c + Seq::<SError>::empty() =~= c);
        }
        assert(clash_errors(ts, params, first, sp) == c + if crate::typing::clash(ts[n], params[n]) {
            seq![crate::typing::argument_error(first + ts.len(), params[n], ts[n], sp)]
        } else {
            Seq::<SError>::empty()
        });
        assert(seq![crate::typing::argument_error(first + ts.len(), params[n], ts[n], sp)] =~= Seq::<SError>::empty().push(
            crate::typing::argument_error(first + ts.len(), params[n], ts[n], sp),
        ));
    }
}

/// A call of a function by its name: its type is the function's return type;
/// a wrong number of arguments raises exactly the error that says so, and
/// otherwise, when the arguments raise no errors themselves, exactly one error
/// per argument whose type clashes with its parameter's is raised. A call of a
/// builtin (of type `any`) has type `void`.
pub proof fn law_call_errors(m: AModel, f: Seq<char>, args: Seq<SExpr>, ts: Seq<SType>, sp: Span)
    requires
        resolve(m.scopes, f) is Some,
    ensures
        ({
            let r = infer(m, SExpr::Call { target: Box::new(SExpr::Path(seq![f])), args }, sp);
            match resolve(m.scopes, f)->0.ty {
                SType::Function { params, ret } => {
                    &&& r.1 == *ret
                    &&& args.len() != params.len() ==> r.0.errors == m.errors.push(
                        crate::typing::arity_error(params.len(), args.len(), sp),
                    )
                    &&& args.len() == params.len() && quiet_args(m, args, ts, sp) ==> r.0.errors == m.errors
                        + clash_errors(ts, params, 0, sp)
                },
                SType::Any => r.1 == SType::Void,
                _ => true,
            }
        }),
{
    let target = SExpr::Path(seq![f]);
    let sym = resolve(m.scopes, f)->0;
    assert(seq![f][0] == f);
    assert(seq![f].drop_first() =~= Seq::<Seq<char>>::empty());
    assert(infer(m, target, sp) == walk_read(m, sym.ty, Seq::<Seq<char>>::empty(), sp));
    assert(infer(m, target, sp) == (m, sym.ty));
    let e = SExpr::Call { target: Box::new(target), args };
    assert(infer(m, e, sp) == infer_call(m, e, sp));
    match sym.ty {
        SType::Function { params, ret } => {
            if args.len() == params.len() && quiet_args(m, args, ts, sp) {
                law_argument_errors(m, args, params, ts, 0, sp);
            }
        },
        _ => {},
    }
}

/// Whether a returned value of type `actual` clashes with the declared return type.
pub open spec fn return_clash(m: AModel, actual: SType) -> bool {
    match m.return_ty {
        Some(e) => e != SType::Unknown && actual != SType::Unknown && e != actual,
        None => false,
    }
}

/// Checking a returned value appends exactly one error, "返回值类型错误" at the
/// return, when the declared return type and the value's type are both known
/// and differ; otherwise it changes nothing. It never changes anything but the
/// errors.
pub proof fn law_verify_return(m: AModel, actual: SType, sp: Span)
    ensures
        return_clash(m, actual) ==> verify_return(m, actual, sp) == m.err(
            plain(
                "返回值类型错误"@,
                crate::typing::msg2(
                    "函数声明返回 '"@,
                    crate::types::type_text(m.return_ty->0),
                    "'，但实际返回了 '"@,
                    crate::types::type_text(actual),
                    "'"@,
                ),
                sp,
            ),
        ),
        !return_clash(m, actual) ==> verify_return(m, actual, sp) == m,
        verify_return(m, actual, sp) == (AModel { errors: verify_return(m, actual, sp).errors, ..m }),
        verify_return(m, actual, sp).errors.len() == m.errors.len() + if return_clash(m, actual) {
            1int
        } else {
            0int
        },
{
}


// ---------------------------------------------------------------------------
// Operators on well-typed operands
// ---------------------------------------------------------------------------

/// On operands whose types fit the operator, a binary operation raises no
/// error and has the type the operator gives: `< > <= >=` on two numbers give
/// `bool`, `+ - * /` on two numbers give `number`, `== !=` on two values of one
/// known type give `bool`, and `++` on two strings gives `string`.
pub proof fn law_operator_types(m: AModel, left: SExpr, op: Seq<char>, right: SExpr, sp: Span)
    ensures
        ({
            let (m1, l) = infer(m, left, sp);
            let (m2, r) = infer(m1, right, sp);
            let res = infer(m, SExpr::BinaryOp { left: Box::new(left), op, right: Box::new(right) }, sp);
            &&& (op == "<"@ || op == ">"@ || op == "<="@ || op == ">="@) && l == SType::Number && r == SType::Number
                ==> res == (m2, SType::Bool)
            &&& (op == "+"@ || op == "-"@ || op == "*"@ || op == "/"@) && l == SType::Number && r == SType::Number
                ==> res == (m2, SType::Number)
            &&& (op == "=="@ || op == "!="@) && l == r && l != SType::Unknown ==> res == (m2, SType::Bool)
            &&& op == "++"@ && l == SType::String && r == SType::String ==> res == (m2, SType::String)
        }),
{
    let e = SExpr::BinaryOp { left: Box::new(left), op, right: Box::new(right) };
    assert(infer(m, e, sp) == infer_binary(m, e, sp));
    reveal_strlit("<");
    reveal_strlit(">");
    reveal_strlit("<=");
    reveal_strlit(">=");
    reveal_strlit("+");
    reveal_strlit("-");
    reveal_strlit("*");
    reveal_strlit("/");
    reveal_strlit("==");
    reveal_strlit("!=");
    reveal_strlit("++");
    assert("++"@[0] == '+' && "++"@.len() == 2);
    assert("=="@[0] == '=' && "=="@.len() == 2);
    assert("!="@[0] == '!' && "!="@.len() == 2);
    assert("+"@.len() == 1 && "-"@.len() == 1 && "*"@.len() == 1 && "/"@.len() == 1);
    assert("+"@[0] == '+' && "-"@[0] == '-' && "*"@[0] == '*' && "/"@[0] == '/');
    assert("<"@.len() == 1 && ">"@.len() == 1 && "<"@[0] == '<' && ">"@[0] == '>');
    assert("<="@[0] == '<' && ">="@[0] == '>' && "<="@.len() == 2 && ">="@.len() == 2);
    if op == "<"@ || op == ">"@ || op == "<="@ || op == ">="@ {
        assert(op != "++"@);
        assert(!crate::typing::is_arith_op(op));
        assert(!crate::typing::is_eq_op(op));
        assert(crate::typing::is_rel_op(op));
    }
    if op == "+"@ || op == "-"@ || op == "*"@ || op == "/"@ {
        assert(op != "++"@);
        assert(crate::typing::is_arith_op(op));
    }
    if op == "=="@ || op == "!="@ {
        assert(op != "++"@);
        assert(!crate::typing::is_arith_op(op));
        assert(crate::typing::is_eq_op(op));
    }
}

// ---------------------------------------------------------------------------
// Loops
// ---------------------------------------------------------------------------

/// A body that is a single `break` or `continue` changes nothing inside a loop.
proof fn lemma_control_body(m: AModel, inner: Span)
    requires
        m.loop_depth > 0,
    ensures
        check_seq(m, seq![SSpanned { node: SStmt::Break, span: inner }]) == m,
        check_seq(m, seq![SSpanned { node: SStmt::Continue, span: inner }]) == m,
        check_seq(m, Seq::<SSpanned<SStmt>>::empty()) == m,
{
    let brk = seq![SSpanned { node: SStmt::Break, span: inner }];
    let cont = seq![SSpanned { node: SStmt::Continue, span: inner }];
    assert(brk.drop_last() =~= Seq::<SSpanned<SStmt>>::empty());
    assert(cont.drop_last() =~= Seq::<SSpanned<SStmt>>::empty());
    assert(check_seq(m, brk.drop_last()) == m);
    assert(check_seq(m, cont.drop_last()) == m);
    assert(check(m, brk.last()) == m);
    assert(check(m, cont.last()) == m);
}

/// `break` and `continue` are allowed in the body of a `while` loop, whatever
/// the depth outside it: a body of one of them checks as an empty body does.
pub proof fn law_control_in_while_body(m: AModel, condition: SExpr, span: Span, inner: Span)
    ensures
        check(m, SSpanned { node: SStmt::While { condition, body: seq![SSpanned { node: SStmt::Break, span: inner }] }, span })
            == check(m, SSpanned { node: SStmt::While { condition, body: Seq::empty() }, span }),
        check(m, SSpanned { node: SStmt::While { condition, body: seq![SSpanned { node: SStmt::Continue, span: inner }] }, span })
            == check(m, SSpanned { node: SStmt::While { condition, body: Seq::empty() }, span }),
{
    let (m1, t) = infer(m, condition, span);
    let m2 = check_condition(m1, t, "while"@, span);
    lemma_control_body(AModel { loop_depth: m2.loop_depth + 1, ..m2 }.push_scope(), inner);
}

/// `break` and `continue` are allowed in the body of a `for` loop, whatever
/// the depth outside it: a body of one of them checks as an empty body does.
pub proof fn law_control_in_for_body(m: AModel, is_mut: bool, item_name: Seq<char>, iterable: SExpr, span: Span, inner: Span)
    ensures
        check(m, SSpanned { node: SStmt::For { is_mut, item_name, iterable, body: seq![SSpanned { node: SStmt::Break, span: inner }] }, span })
            == check(m, SSpanned { node: SStmt::For { is_mut, item_name, iterable, body: Seq::empty() }, span }),
        check(m, SSpanned { node: SStmt::For { is_mut, item_name, iterable, body: seq![SSpanned { node: SStmt::Continue, span: inner }] }, span })
            == check(m, SSpanned { node: SStmt::For { is_mut, item_name, iterable, body: Seq::empty() }, span }),
{
    let (m1, it) = infer(m, iterable, span);
    let (m2, item) = match it {
        SType::Array(inner_ty) => (m1, *inner_ty),
        _ => if it != SType::Unknown {
            (
                m1.err(plain("类型错误"@, crate::typing::msg1("'for' 循环只能遍历数组，但得到了 '"@, crate::types::type_text(it), "'"@), span)),
                SType::Unknown,
            )
        } else {
            (m1, SType::Unknown)
        },
    };
    let m3 = AModel { loop_depth: m2.loop_depth + 1, ..m2 }.push_scope().define(item_name, is_mut, item, span);
    let locked = match iterable {
        SExpr::Path(p) => p.len() == 1,
        _ => false,
    };
    let m4 = if locked {
        AModel { iterating: m3.iterating.push(iterable->Path_0[0]), ..m3 }
    } else {
        m3
    };
    lemma_control_body(m4, inner);
}


/// A condition of type `bool` (or of a type not known) is accepted: an empty
/// `if` or `while` on it leaves the state as inferring the condition left it.
/// A condition of any other known type is refused with the error that names the
/// statement and the type found.
pub proof fn law_condition_checked(m: AModel, condition: SExpr, span: Span)
    ensures
        ({
            let (m1, t) = infer(m, condition, span);
            let w = check(m, SSpanned { node: SStmt::While { condition, body: Seq::empty() }, span });
            let i = check(m, SSpanned { node: SStmt::If { condition, then_branch: Seq::empty(), else_branch: None }, span });
            &&& (t == SType::Bool || t == SType::Unknown) ==> w == m1 && i == m1
            &&& t != SType::Bool && t != SType::Unknown ==> w == m1.err(
                plain(
                    "条件类型错误"@,
                    crate::typing::msg2("'"@, "while"@, "' 的条件必须是 'bool' 类型，但得到了 '"@, crate::types::type_text(t), "'"@),
                    span,
                ),
            )
            &&& t != SType::Bool && t != SType::Unknown ==> i == m1.err(
                plain(
                    "条件类型错误"@,
                    crate::typing::msg2("'"@, "if"@, "' 的条件必须是 'bool' 类型，但得到了 '"@, crate::types::type_text(t), "'"@),
                    span,
                ),
            )
        }),
{
    let (m1, t) = infer(m, condition, span);
    let wm2 = check_condition(m1, t, "while"@, span);
    let im2 = check_condition(m1, t, "if"@, span);
    let wb = AModel { loop_depth: wm2.loop_depth + 1, ..wm2 }.push_scope();
    assert(check_seq(wb, Seq::<SSpanned<SStmt>>::empty()) == wb);
    assert(check_seq(im2.push_scope(), Seq::<SSpanned<SStmt>>::empty()) == im2.push_scope());
    assert(wb.pop_scope().scopes =~= wm2.scopes);
    assert(im2.push_scope().pop_scope().scopes =~= im2.scopes);
}

} // verus!

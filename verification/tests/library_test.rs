use sgs::analyzer::{Analyzer, Type};
use sgs::ast::{Expr, FunctionDef, SgsNode, Stmt};
use sgs::hint::semicolon_anchor;
use sgs::lexer::{chars_of, lex, Sym, TokKind};
use sgs::parse_program;

fn num(s: &str) -> Expr {
    Expr::Number(s.to_string())
}

fn path(names: &[&str]) -> Expr {
    Expr::Path(names.iter().map(|s| s.to_string()).collect())
}

fn system(src: &str) -> Vec<FunctionDef> {
    let ast = parse_program(src).unwrap();
    for node in ast {
        if let SgsNode::SystemDef(sys) = node {
            return sys.functions;
        }
    }
    panic!("no system");
}

fn check(src: &str) -> Analyzer {
    let ast = parse_program(src).unwrap();
    let mut analyzer = Analyzer::new();
    for node in &ast {
        match node {
            SgsNode::StructDef(s) => analyzer.register_struct(s),
            SgsNode::SystemDef(sys) => analyzer.register_functions(sys),
            _ => {}
        }
    }
    for node in &ast {
        if let SgsNode::SystemDef(sys) = node {
            for func in &sys.functions {
                analyzer.check_function(func);
            }
        }
    }
    analyzer
}

#[test]
fn lexer_splits_symbols_longest_first() {
    let chars = chars_of("a ++= b ++ c + 1.5 -> x;");
    let toks = lex(&chars).ok().unwrap();
    let kinds: Vec<String> = toks.iter().map(|t| format!("{:?}", t.kind)).collect();
    assert_eq!(toks.len(), 10);
    assert!(matches!(toks[1].kind, TokKind::Sym(Sym::PlusPlusAssign)));
    assert!(matches!(toks[3].kind, TokKind::Sym(Sym::PlusPlus)));
    assert!(matches!(toks[5].kind, TokKind::Sym(Sym::Plus)));
    assert!(matches!(&toks[6].kind, TokKind::Number(n) if n == "1.5"), "{:?}", kinds);
    assert!(matches!(toks[7].kind, TokKind::Sym(Sym::Arrow)));
    assert_eq!((toks[0].start, toks[0].end), (0, 1));
    assert_eq!((toks[1].start, toks[1].end), (2, 5));
}

#[test]
fn lexer_skips_comments() {
    let chars = chars_of("a // one\n /* two\n three */ b");
    let toks = lex(&chars).ok().unwrap();
    assert_eq!(toks.len(), 2);
    assert_eq!(toks[1].start, 27);
}

#[test]
fn lexer_reports_unclosed_string() {
    let chars = chars_of("let s = \"abc");
    let err = lex(&chars).err().unwrap();
    assert_eq!(err.pos, 8);
    assert_eq!(err.expected, "closing quote");
}

#[test]
fn lexer_reports_unclosed_comment() {
    let chars = chars_of("a /* b");
    let err = lex(&chars).err().unwrap();
    assert_eq!(err.pos, 2);
    assert_eq!(err.expected, "end of comment");
}

#[test]
fn lexer_reports_unknown_character() {
    let chars = chars_of("a # b");
    let err = lex(&chars).err().unwrap();
    assert_eq!(err.pos, 2);
    assert_eq!(err.expected, "token");
}

#[test]
fn parse_error_for_missing_semicolon() {
    let src = "@type System;\n@name S;\nfn main() {\n    let a = 1\n    let b = 2;\n}\n";
    let err = parse_program(src).unwrap_err();
    assert_eq!(err.expected, "';'");
    assert_eq!(err.pos, src.find("let b").unwrap());
}

#[test]
fn parse_error_positions_are_bytes() {
    let src = "@type System;\n@name 名字;\n";
    let err = parse_program(src).unwrap_err();
    assert_eq!(err.expected, "token");
    assert_eq!(err.pos, src.find('名').unwrap());
}

#[test]
fn parse_error_for_unknown_item() {
    let src = "@type System;\nlet x = 1;\n";
    let err = parse_program(src).unwrap_err();
    assert_eq!(err.expected, "a top-level item");
    assert_eq!(err.pos, 14);
}

#[test]
fn parse_error_at_end_of_text() {
    let src = "fn main() {";
    let err = parse_program(src).unwrap_err();
    assert_eq!(err.expected, "'}'");
    assert_eq!(err.pos, src.len());
}

#[test]
fn parse_empty_program() {
    assert!(parse_program("").unwrap().is_empty());
    assert!(parse_program("  // nothing\n").unwrap().is_empty());
}

#[test]
fn definitions_end_at_each_type_annotation() {
    let src = "@type Entity;\n@name A;\nmount X;\n@type Component;\n@name C;\nparam p : number;\n@type Foo;\nmount Y;\n@type Entity;\n@name B;\n";
    let ast = parse_program(src).unwrap();
    assert_eq!(ast.len(), 3);
    match &ast[0] {
        SgsNode::EntityDef(e) => {
            assert_eq!(e.name, "A");
            assert_eq!(e.components, vec!["X"]);
        }
        _ => panic!("expected an entity"),
    }
    match &ast[1] {
        SgsNode::ComponentDef(c) => {
            assert_eq!(c.name, "C");
            assert_eq!(c.params[0].ty, "number");
        }
        _ => panic!("expected a component"),
    }
    match &ast[2] {
        SgsNode::EntityDef(e) => {
            assert_eq!(e.name, "B");
            assert_eq!(e.components, vec!["Y"]);
        }
        _ => panic!("expected an entity"),
    }
}

#[test]
fn struct_definitions_come_before_the_system() {
    let src = "@type System;\n@name S;\nstruct P { x: number, y: [ number ] }\nfn f() {}\n";
    let ast = parse_program(src).unwrap();
    assert_eq!(ast.len(), 2);
    match &ast[0] {
        SgsNode::StructDef(d) => {
            assert_eq!(d.name, "P");
            assert_eq!(d.fields, vec![("x".to_string(), "number".to_string()), ("y".to_string(), "[number]".to_string())]);
        }
        _ => panic!("expected a struct"),
    }
    assert!(matches!(&ast[1], SgsNode::SystemDef(s) if s.name == "S"));
}

#[test]
fn return_type_text_drops_spaces_and_arrows() {
    let fs = system("@type System;\n@name S;\nfn f() -> func( number ) -> void {}\nfn g() {}\n");
    assert_eq!(fs[0].return_ty.as_deref(), Some("func(number)void"));
    assert_eq!(fs[1].return_ty, None);
}

#[test]
fn parse_statements_of_every_kind() {
    let src = r#"
        @type System;
        @name S;
        fn main() -> number {
            let mut i = 0;
            while i < 3 { i += 1; if i == 2 { continue; } else if i == 5 { break; } else { } }
            for mut v in list { v.x = 1; }
            arr[1] -= 2;
            { return; }
            i
        }
    "#;
    let fs = system(src);
    let st = &fs[0].statements;
    assert_eq!(st.len(), 6);
    assert!(matches!(&st[0].node, Stmt::Let { is_mut: true, name, .. } if name == "i"));
    if let Stmt::While { condition, body } = &st[1].node {
        assert!(matches!(condition, Expr::BinaryOp { op, .. } if op == "<"));
        assert_eq!(body.len(), 2);
        if let Stmt::If { else_branch: Some(b), .. } = &body[1].node {
            assert!(matches!(&b.node, Stmt::If { else_branch: Some(_), .. }));
        } else {
            panic!("expected an if");
        }
    } else {
        panic!("expected a while");
    }
    assert!(matches!(&st[2].node, Stmt::For { is_mut: true, item_name, .. } if item_name == "v"));
    if let Stmt::Assign(a) = &st[3].node {
        assert_eq!(a.target_path, vec!["arr"]);
        assert_eq!(a.index, Some(num("1")));
        assert_eq!(a.op, "-=");
    } else {
        panic!("expected an assignment");
    }
    assert!(matches!(&st[4].node, Stmt::Block(b) if matches!(b[0].node, Stmt::Return(None))));
    assert_eq!(st[5].node, Stmt::ImplicitReturn(path(&["i"])));
}

#[test]
fn parse_expressions_of_every_kind() {
    let src = r#"
        @type System;
        @name S;
        fn main() {
            let a = arr.push(4);
            let b = $"x is {x + 1}!";
            let c = "100" as number;
            let d = arr[0];
            let e = f(1, "s", true);
            let g = P { x: 1, y: [] };
            let h = |mut k: number, s: string| { k };
            let i = a ++ b;
        }
    "#;
    let fs = system(src);
    let value = |k: usize| match &fs[0].statements[k].node {
        Stmt::Let { value, .. } => value,
        _ => panic!("expected a let"),
    };
    assert_eq!(
        *value(0),
        Expr::MethodCall { target: Box::new(path(&["arr"])), method: "push".to_string(), args: vec![num("4")] }
    );
    if let Expr::StringInterp(parts) = value(1) {
        assert_eq!(parts.len(), 3);
        assert_eq!(parts[0], Expr::StringLit("x is ".to_string()));
        assert!(matches!(&parts[1], Expr::BinaryOp { op, .. } if op == "+"));
        assert_eq!(parts[2], Expr::StringLit("!".to_string()));
    } else {
        panic!("expected an interpolated string");
    }
    assert_eq!(
        *value(2),
        Expr::Cast { expr: Box::new(Expr::StringLit("100".to_string())), ty_name: "number".to_string() }
    );
    assert_eq!(*value(3), Expr::Index { target: Box::new(path(&["arr"])), index: Box::new(num("0")) });
    if let Expr::Call { target, args } = value(4) {
        assert_eq!(**target, path(&["f"]));
        assert_eq!(args, &vec![num("1"), Expr::StringLit("s".to_string()), Expr::Bool(true)]);
    } else {
        panic!("expected a call");
    }
    if let Expr::StructInit { name, fields } = value(5) {
        assert_eq!(name, "P");
        assert_eq!(fields[1], ("y".to_string(), Expr::Array(vec![])));
    } else {
        panic!("expected a struct literal");
    }
    if let Expr::Closure { params, body } = value(6) {
        assert!(params[0].is_mut);
        assert_eq!(params[1].ty, "string");
        assert_eq!(body[0].node, Stmt::ImplicitReturn(path(&["k"])));
    } else {
        panic!("expected a closure");
    }
    assert!(matches!(value(7), Expr::BinaryOp { op, .. } if op == "++"));
}

#[test]
fn statement_spans_are_byte_ranges() {
    let src = "fn f() {\n  let s = \"中文\";\n  s;\n}\n@type System;\n@name S;\n";
    let fs = system(src);
    let let_start = src.find("let").unwrap();
    let let_end = src.find(";\n  s").unwrap() + 1;
    assert_eq!(fs[0].statements[0].span, let_start..let_end);
    let s_start = src.find("s;\n}").unwrap();
    assert_eq!(fs[0].statements[1].span, s_start..s_start + 2);
}

#[test]
fn semicolon_hint_points_before_comments() {
    let src = "let a = 1 // one\n  /* two */\n  let";
    let pos = src.rfind("let").unwrap();
    let anchor = semicolon_anchor(src, pos).unwrap();
    let one = src.find('1').unwrap();
    assert_eq!(anchor, one..one + 1);
}

#[test]
fn semicolon_hint_measures_wide_characters() {
    let src = "x = 名 \n}";
    let pos = src.find('}').unwrap();
    let anchor = semicolon_anchor(src, pos).unwrap();
    let start = src.find('名').unwrap();
    assert_eq!(anchor, start..start + 3);
    assert_eq!(semicolon_anchor("  // only\n", 10), None);
}

#[test]
fn analyzer_reports_undefined_variable() {
    let a = check("@type System;\n@name S;\nfn main() { let x = y; }\n");
    assert_eq!(a.errors.len(), 1);
    assert_eq!(a.errors[0].title, "变量未定义");
    assert_eq!(a.errors[0].message, "找不到变量: 'y'");
}

#[test]
fn analyzer_refuses_assignment_to_immutable() {
    let src = "@type System;\n@name S;\nfn main() {\n  let pi = 3.14;\n  pi = 3.14159;\n}\n";
    let a = check(src);
    assert_eq!(a.errors.len(), 1);
    let e = &a.errors[0];
    assert_eq!(e.title, "不可变真的可变吗？");
    assert_eq!(e.message, "无法对不可变变量 'pi' 重新赋值。");
    let assign_start = src.find("pi = 3.14159").unwrap();
    assert_eq!(e.span.start, assign_start);
    let (note, decl) = e.note.as_ref().unwrap();
    assert!(note.contains("let mut pi"));
    assert_eq!(decl.start, src.find("let pi").unwrap());
}

#[test]
fn analyzer_allows_assignment_to_mutable() {
    let a = check("@type System;\n@name S;\nfn main() { let mut x = 1; x += 2; }\n");
    assert!(a.errors.is_empty());
}

#[test]
fn analyzer_refuses_break_outside_loops() {
    let a = check("@type System;\n@name S;\nfn main() { break; while true { break; continue; } continue; }\n");
    assert_eq!(a.errors.len(), 2);
    assert_eq!(a.errors[0].message, "'break' 只能在循环体内使用");
    assert_eq!(a.errors[1].message, "'continue' 只能在循环体内使用");
}

#[test]
fn analyzer_reports_wrong_argument_count_and_type() {
    let src = "@type System;\n@name S;\nfn f(a: number) -> number { a }\nfn main() { f(1, 2); f(\"s\"); }\n";
    let a = check(src);
    assert_eq!(a.errors.len(), 2);
    assert_eq!(a.errors[0].message, "函数需要 1 个参数，但传入了 2 个");
    assert_eq!(a.errors[1].message, "第 1 个参数应该是 'number'，但传入了 'string'");
}

#[test]
fn analyzer_reports_return_type_mismatch() {
    let a = check("@type System;\n@name S;\nfn f() -> number { return \"s\"; }\n");
    assert_eq!(a.errors.len(), 1);
    assert_eq!(a.errors[0].title, "返回值类型错误");
    assert_eq!(a.errors[0].message, "函数声明返回 'number'，但实际返回了 'string'");
}

#[test]
fn analyzer_reports_struct_field_problems() {
    let src = "@type System;\n@name S;\nstruct P { x: number, y: number }\nfn main() { let p = P { x: \"s\", z: 1 }; let q = p.w; }\n";
    let a = check(src);
    let titles: Vec<&str> = a.errors.iter().map(|e| e.title.as_str()).collect();
    assert_eq!(titles, vec!["字段类型不匹配", "不存在的字段", "漏写字段", "字段不存在"]);
    assert_eq!(a.errors[2].message, "实例化 'P' 时，缺少必要的字段: 'y'");
}

#[test]
fn analyzer_warns_when_an_iterated_array_changes() {
    let src = "@type System;\n@name S;\nfn main() { let mut a = [1]; for v in a { a.push(v); } }\n";
    let a = check(src);
    assert!(a.errors.is_empty());
    assert_eq!(a.warnings.len(), 1);
    assert_eq!(a.warnings[0].title, "遍历中追加元素");
}

#[test]
fn analyzer_scopes_forget_inner_declarations() {
    let a = check("@type System;\n@name S;\nfn main() { { let x = 1; } let y = x; }\n");
    assert_eq!(a.errors.len(), 1);
    assert_eq!(a.errors[0].message, "找不到变量: 'x'");
}

#[test]
fn define_then_infer_gives_the_declared_type() {
    let mut a = Analyzer::new();
    a.define_var("n".to_string(), false, Type::Number, &(0..0));
    let t = a.infer_expr(&path(&["n"]), &(0..0));
    assert_eq!(t.to_string(), "number");
    let u = a.infer_expr(&path(&["m"]), &(0..0));
    assert_eq!(u.to_string(), "unknown");
    assert_eq!(a.errors.len(), 1);
}

#[test]
fn type_names_and_texts() {
    assert_eq!(Type::from_name("float").to_string(), "number");
    assert_eq!(Type::from_name("Vec2").to_string(), "Vec2");
    let f = Type::Function { params: vec![Type::Number, Type::String], ret: Box::new(Type::Array(Box::new(Type::Bool))) };
    assert_eq!(f.to_string(), "func(number, string) -> bool[]");
}

#[test]
fn runner_scripts_parse() {
    let math = system(
        r#"
        @type System;
        @name EngineMath;

        fn main() -> void {
            let base = 10;
            let offset = 2 * 3;            // 6
            let mut total = base + offset; // 16

            total += 4;                    // 20
            total *= (2 + 3);              // 100
            total /= 2;                    // 50
        }
    "#,
    );
    assert_eq!(math[0].statements.len(), 6);

    let scope = system(
        r#"
        @type System;
        @name ScopeTest;

        fn test_scope() -> void {
            let mut x = 10;
            x += 5; // x to 15

            let constant_val = 100;

            let modifier = |step: number| {
                let local_var = 2;
                x += step * local_var;
            };

            // x += 3 * 2 => x 变成 21
            modifier(3);
        }
    "#,
    );
    assert_eq!(scope[0].statements.len(), 5);
    if let Stmt::Let { value: Expr::Closure { body, .. }, .. } = &scope[0].statements[3].node {
        assert_eq!(body.len(), 2);
    } else {
        panic!("expected a closure");
    }

    let advanced = system(
        r#"
        @type System;
        @name AdvancedSyntax;

        fn get_32() -> number {
            // 隐式返回 (无分号)
            32
        }

        fn get_10() -> number {
            // 显式返回
            return 10;
        }

        fn main() -> void {
            let a =
                32 + 33 / 11 + 10
                + get_32()
                - get_10();

            let msg = $"Result a is {a}, next is {a + 1}";
        }
    "#,
    );
    assert_eq!(advanced.len(), 3);
    assert_eq!(advanced[0].statements[0].node, Stmt::ImplicitReturn(num("32")));
    if let Stmt::Let { value: Expr::StringInterp(parts), .. } = &advanced[2].statements[1].node {
        assert_eq!(parts.len(), 4);
        assert_eq!(parts[0], Expr::StringLit("Result a is ".to_string()));
        assert_eq!(parts[1], path(&["a"]));
        assert_eq!(parts[2], Expr::StringLit(", next is ".to_string()));
    } else {
        panic!("expected an interpolated string");
    }

    let arrays = system(
        r#"
        @type System;
        @name ArrayTest;

        fn main() -> void {
            let mut arr = [10, 20, 30];

            let first = arr[0];

            arr[1] += 5;   // 25
            arr[2] -= 10;  // 20
            arr[0] = 99;   // 99

            let res0 = arr[0];
            let res1 = arr[1];
            let res2 = arr[2];
        }
    "#,
    );
    assert_eq!(arrays[0].statements.len(), 8);

    let loops = system(
        r#"
        @type System;
        @name WhileTest;

        fn main() -> void {
            let mut i = 0;
            let mut sum = 0;

            while i < 10 {
                i += 1;

                if i == 3 {
                    continue;
                }

                sum += i;

                if i == 4 {
                    break; // sum = 1 + 2 + 4 = 7
                }
            }
        }
    "#,
    );
    assert_eq!(loops[0].statements.len(), 3);

    let concat = system(
        r#"
        @type System;
        @name ConcatTest;

        fn main() -> void {
            let mut msg = "Player " ++ "Sout";
            msg ++= " has joined.";
            let final_msg = msg ++ " Welcome!";
        }
    "#,
    );
    assert!(matches!(&concat[0].statements[1].node, Stmt::Assign(a) if a.op == "++="));
}

#[test]
fn loop_nesting_fits_the_counter() {
    let fs = system("@type System;\n@name S;\nfn main() { while true { for x in a { { while false {} } } } }\n");
    let a = Analyzer::new();
    assert!(a.can_check(&fs[0]));
}

#[test]
fn analyzer_keeps_earlier_errors() {
    let src = "@type System;\n@name S;\nfn f() { let a = b; }\nfn g() { break; }\n";
    let a = check(src);
    assert_eq!(a.errors.len(), 2);
    assert_eq!(a.errors[0].message, "找不到变量: 'b'");
    assert_eq!(a.errors[1].message, "'break' 只能在循环体内使用");
}

#[test]
fn analyzer_keeps_earlier_warnings() {
    let src = "@type System;\n@name S;\nfn main() { let mut a = [1]; for v in a { a.push(v); a.pop(); } }\n";
    let a = check(src);
    assert!(a.errors.is_empty());
    assert_eq!(a.warnings.len(), 2);
    assert_eq!(a.warnings[0].title, "遍历中追加元素");
    assert_eq!(a.warnings[1].title, "遍历中弹出元素");
}

#[test]
fn one_error_per_clashing_argument() {
    let src = "@type System;\n@name S;\nfn f(a: number, b: string, c: bool) {}\nfn main() { f(\"x\", \"y\", 1); }\n";
    let a = check(src);
    assert_eq!(a.errors.len(), 2);
    assert_eq!(a.errors[0].message, "第 1 个参数应该是 'number'，但传入了 'string'");
    assert_eq!(a.errors[1].message, "第 3 个参数应该是 'bool'，但传入了 'number'");
}

#[test]
fn clones_equal_their_originals() {
    let fs = system("@type System;\n@name S;\nfn f(mut a: number) -> number { let b = |x: number| { x + a }; if a > 1 { return b(a); } else { a } }\n");
    let copy = fs[0].clone();
    assert_eq!(copy, fs[0]);
    let st = fs[0].statements[1].clone();
    assert_eq!(st, fs[0].statements[1]);
}

#[test]
fn analyzer_fields_follow_its_state() {
    let mut a = Analyzer::new();
    assert_eq!(a.scopes.len(), 1);
    assert_eq!(a.loop_depth, 0);
    a.define_var("x".to_string(), true, Type::Bool, &(0..0));
    assert_eq!(a.scopes[0].entries.len(), 1);
    assert!(a.iterating_vars.is_empty());
}

#[test]
fn types_clone_and_compare() {
    let f = Type::Function { params: vec![Type::Number], ret: Box::new(Type::Struct("P".to_string())) };
    let g = f.clone();
    assert_eq!(f, g);
    assert_ne!(f, Type::Number);
}

#[test]
fn returning_the_declared_type_raises_nothing() {
    let a = check("@type System;\n@name S;\nfn f() -> number { return 1; }\nfn g() -> number { 2 }\nfn h() { return; }\n");
    assert!(a.errors.is_empty());
}

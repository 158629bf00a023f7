use sgs::ast::{AssignStmt, Expr, SgsNode, Stmt};
use sgs::parse_program;

fn num(s: &str) -> Expr {
    Expr::Number(s.to_string())
}

#[test]
fn test_parse_player_entity() {
    let script = r#"
        @type Entity;
        @name Player;

        mount Transition;
        mount Health;
        mount Attack;
    "#;

    let ast = parse_program(script).unwrap();
    assert_eq!(ast.len(), 1);

    if let SgsNode::EntityDef(entity) = &ast[0] {
        assert_eq!(entity.name, "Player");
        assert_eq!(entity.components, vec!["Transition", "Health", "Attack"]);
    } else {
        panic!("Expected EntityDef");
    }
}

#[test]
fn test_parse_transition_component() {
    let script = r#"
        // transition.sgs
        @type Component;
        @name Transition;

        param position : Vector2;
    "#;

    let ast = parse_program(script).unwrap();
    assert_eq!(ast.len(), 1);

    if let SgsNode::ComponentDef(comp) = &ast[0] {
        assert_eq!(comp.name, "Transition");
        assert_eq!(comp.params.len(), 1);
        assert_eq!(comp.params[0].name, "position");
        assert_eq!(comp.params[0].ty, "Vector2");
    } else {
        panic!("Expected ComponentDef");
    }
}

#[test]
fn test_parse_movement_system() {
    let script = r#"
        // movement.sgs
        @type System;
        @name Movement;

        require mut Transition;

        fn _process() -> void {
            Transition.position.x += 1;
        }
    "#;

    let ast = parse_program(script).unwrap();
    assert_eq!(ast.len(), 1);

    if let SgsNode::SystemDef(sys) = &ast[0] {
        assert_eq!(sys.name, "Movement");

        assert_eq!(sys.required_components.len(), 1);
        assert!(sys.required_components[0].is_mut);
        assert_eq!(sys.required_components[0].name, "Transition");

        assert_eq!(sys.functions.len(), 1);
        let func = &sys.functions[0];
        assert_eq!(func.name, "_process");

        assert_eq!(func.statements.len(), 1);
        assert_eq!(
            func.statements[0].node,
            Stmt::Assign(AssignStmt {
                target_path: vec!["Transition", "position", "x"]
                    .into_iter()
                    .map(|s| s.to_string())
                    .collect(),
                op: "+=".into(),
                value: num("1"),
                index: None
            })
        );
    } else {
        panic!("Expected SystemDef");
    }
}

#[test]
fn test_fn() {
    let script = r#"
        @type System;
        @name Logic;

        // fn.sgs
        fn _process() -> void {
            let lambda_print = |msg: string| {
                print(msg);
            };
            lambda_print("hello world");
            idk(lambda_print);
        }

        fn idk(some_func: func(string) -> void) {
            some_func("hello world from idk");
            some_func("hello world from idk again");
        }
    "#;

    let ast = parse_program(script).unwrap();
    assert_eq!(ast.len(), 1);

    if let SgsNode::SystemDef(sys) = &ast[0] {
        assert_eq!(sys.functions.len(), 2);

        let func1 = &sys.functions[0];
        assert_eq!(func1.name, "_process");
        assert_eq!(func1.params.len(), 0);
        assert_eq!(func1.return_ty.as_deref(), Some("void"));
        assert_eq!(func1.statements.len(), 3);

        if let Stmt::Let { is_mut, name, value } = &func1.statements[0].node {
            assert_eq!(name, "lambda_print");
            assert!(!*is_mut);
            if let Expr::Closure { params, body } = value {
                assert_eq!(params.len(), 1);
                assert_eq!(params[0].name, "msg");
                assert_eq!(params[0].ty, "string");
                assert_eq!(body.len(), 1);
            } else {
                panic!("Expected Closure in Let statement");
            }
        } else {
            panic!("Expected Let statement");
        }

        if let Stmt::Expr(Expr::Call { target, args }) = &func1.statements[1].node {
            assert_eq!(**target, Expr::Path(vec!["lambda_print".to_string()]));
            assert_eq!(args.len(), 1);
            assert_eq!(args[0], Expr::StringLit("hello world".to_string()));
        } else {
            panic!("Expected Call expression statement");
        }

        let func2 = &sys.functions[1];
        assert_eq!(func2.name, "idk");
        assert_eq!(func2.params.len(), 1);
        assert_eq!(func2.params[0].name, "some_func");
        assert_eq!(func2.params[0].ty, "func(string)->void");
        assert_eq!(func2.statements.len(), 2);

        if let Stmt::Expr(Expr::Call { target, args }) = &func2.statements[0].node {
            assert_eq!(**target, Expr::Path(vec!["some_func".to_string()]));
            assert_eq!(args.len(), 1);
            assert_eq!(args[0], Expr::StringLit("hello world from idk".to_string()));
        }
    } else {
        panic!("Expected SystemDef");
    }
}

#[test]
#[allow(unused)]
fn test_calculation_parsing() {
    let script = r#"
        @type System;
        @name MathTest;

        fn calculate() -> void {
            let base_val = 100;

            Player.hp += 50;
            Player.hp -= 20;
            Player.multiplier *= 2;
            Player.defense /= 1.5;
        }
    "#;

    let ast = parse_program(script).unwrap();
    assert_eq!(ast.len(), 1);

    if let SgsNode::SystemDef(sys) = &ast[0] {
        assert_eq!(sys.functions.len(), 1);
        let func = &sys.functions[0];

        assert_eq!(func.statements.len(), 5);

        if let Stmt::Let { is_mut, name, value } = &func.statements[0].node {
            assert_eq!(name, "base_val");
            assert!(!*is_mut);
            assert_eq!(*value, num("100"));
        } else {
            panic!("应是let");
        }

        if let Stmt::Assign(AssignStmt { target_path, op, value, index }) = &func.statements[1].node {
            assert_eq!(target_path, &vec!["Player", "hp"]);
            assert_eq!(op, "+=");
            assert_eq!(*value, num("50"));
            assert!(index.is_none());
        } else {
            panic!("应该是+=");
        }

        if let Stmt::Assign(AssignStmt { target_path, op, value, index }) = &func.statements[2].node {
            assert_eq!(op, "-=");
            assert_eq!(*value, num("20"));
            assert!(index.is_none());
        } else {
            panic!("应当是-=");
        }

        if let Stmt::Assign(AssignStmt { target_path, op, value, index }) = &func.statements[3].node {
            assert_eq!(op, "*=");
            assert_eq!(*value, num("2"));
        } else {
            panic!("应该是 *=");
        }

        if let Stmt::Assign(AssignStmt { target_path, op, value, index }) = &func.statements[4].node {
            assert_eq!(op, "/=");
            assert_eq!(*value, num("1.5"));
            assert!(index.is_none());
        } else {
            panic!("应该是 /=");
        }
    } else {
        panic!("应该是 SystemDef 节点");
    }
}

#[test]
fn test_complex_math_expression() {
    let script = r#"
        @type System;
        @name MathTest;

        fn calc() -> void {
            let result = 10 + 5 * (2 - Player.defense);
        }
    "#;

    let ast = parse_program(script).unwrap();

    if let SgsNode::SystemDef(sys) = &ast[0] {
        let func = &sys.functions[0];

        if let Stmt::Let { is_mut, name, value } = &func.statements[0].node {
            assert_eq!(name, "result");
            assert!(!*is_mut);

            if let Expr::BinaryOp { left, op, right } = value {
                assert_eq!(op, "+");
                assert_eq!(**left, num("10"));

                if let Expr::BinaryOp { left: mul_left, op: mul_op, right: mul_right } = &**right {
                    assert_eq!(mul_op, "*");
                    assert_eq!(**mul_left, num("5"));

                    if let Expr::BinaryOp { left: sub_left, op: sub_op, right: sub_right } = &**mul_right {
                        assert_eq!(sub_op, "-");
                        assert_eq!(**sub_left, num("2"));
                        assert_eq!(
                            **sub_right,
                            Expr::Path(vec!["Player".to_string(), "defense".to_string()])
                        );
                    } else {
                        panic!("预期括号内为减法节点");
                    }
                } else {
                    panic!("预期右侧为乘法节点");
                }
            } else {
                panic!("预期最外层为加法节点");
            }
        } else {
            panic!("Expected Let stmt");
        }
    } else {
        panic!("Expected SystemDef");
    }
}

#[test]
fn test_analyzer_rejects_plus_for_strings() {
    let script = r#"
        @type System;
        @name AnalyzerErrorTest;

        fn main() -> void {
            let bad_concat = "Hello " + "World";
        }
    "#;

    let ast = parse_program(script).unwrap();
    let mut analyzer = sgs::analyzer::Analyzer::new();

    if let SgsNode::SystemDef(sys) = &ast[0] {
        analyzer.register_functions(sys);
        for func in &sys.functions {
            analyzer.check_function(func);
        }
    }

    assert_eq!(analyzer.errors.len(), 1);

    let err = &analyzer.errors[0];
    assert_eq!(err.title, "操作符错误");
    assert!(err.message.contains("不能使用 '+' 来操作字符串"));

    let note = err.note.as_ref().unwrap();
    assert!(note.0.contains("SGS 使用 '++'"));
}

#[test]
fn test_struct_instantiation_and_deep_assignment() {
    let script = r#"
        @type System;
        @name StructTest;

        struct Vector2 { x: number, y: number }
        struct Player { pos: Vector2, hp: number }

        fn main() -> void {
            let mut p = Player {
                pos: Vector2 { x: 10, y: 20 },
                hp: 100
            };

            // 深度修改
            p.pos.x += 5;
            p.hp -= 10;

            let final_x = p.pos.x;
            let final_hp = p.hp;
        }
    "#;

    let ast = parse_program(script).unwrap();
    let mut analyzer = sgs::analyzer::Analyzer::new();

    for node in &ast {
        match node {
            SgsNode::StructDef(s) => analyzer.register_struct(s),
            SgsNode::SystemDef(sys) => analyzer.register_functions(sys),
            _ => {}
        }
    }
    for node in &ast {
        if let SgsNode::SystemDef(sys) = node {
            for func in &sys.functions {
                analyzer.check_function(func);
            }
        }
    }
    assert!(
        analyzer.errors.is_empty(),
        "静态检查报错: {:?}",
        analyzer.errors.iter().map(|e| &e.message).collect::<Vec<_>>()
    );
}

#[test]
fn test_ufcs_and_mut_parameters() {
    let script = r#"
        @type System;
        @name UFCSTest;

        struct Stats { atk: number }

        fn buff(mut s: Stats, amount: number) -> void {
            s.atk += amount;
        }

        fn main() -> void {
            let mut my_stats = Stats { atk: 10 };

            my_stats.buff(5);
            my_stats.buff(10);

            let final_atk = my_stats.atk;
        }
    "#;

    let ast = parse_program(script).unwrap();
    let mut analyzer = sgs::analyzer::Analyzer::new();
    for node in &ast {
        match node {
            SgsNode::StructDef(s) => analyzer.register_struct(s),
            SgsNode::SystemDef(sys) => analyzer.register_functions(sys),
            _ => {}
        }
    }
    for node in &ast {
        if let SgsNode::SystemDef(sys) = node {
            for func in &sys.functions {
                analyzer.check_function(func);
            }
        }
    }
    assert!(analyzer.errors.is_empty());
}

#[test]
fn test_type_casting_as_keyword() {
    let script = r#"
        @type System;
        @name CastTest;

        fn main() -> void {
            let s = "100" as number;
            let n = s + 50;           // n = 150
            let res_str = n as string; // res_str = "150"
            let is_true = true as number; // is_true = 1
        }
    "#;

    let ast = parse_program(script).unwrap();
    let mut analyzer = sgs::analyzer::Analyzer::new();
    if let SgsNode::SystemDef(sys) = &ast[0] {
        analyzer.register_functions(sys);
        for func in &sys.functions {
            analyzer.check_function(func);
        }
    }
    assert!(analyzer.errors.is_empty());
}

#[test]
fn test_array_builtin_methods() {
    let script = r#"
        @type System;
        @name ArrayMethodsTest;

        fn main() -> void {
            let mut arr = [1, 2, 3];

            arr.push(4);          // [1, 2, 3, 4]
            let l = arr.len();    // 4

            let popped = arr.pop(); // 4, arr = [1, 2, 3]

            arr.remove(0);        // arr = [2, 3]
            let first = arr[0];   // 2
        }
    "#;

    let ast = parse_program(script).unwrap();
    let mut analyzer = sgs::analyzer::Analyzer::new();
    if let SgsNode::SystemDef(sys) = &ast[0] {
        analyzer.register_functions(sys);
        for func in &sys.functions {
            analyzer.check_function(func);
        }
    }
    assert!(analyzer.errors.is_empty(), "数组方法静态检查失败");
}

#[test]
fn test_ecs_engine_bridge() {
    let script = r#"
        @type System;
        @name MovementSystem;

        fn _process() -> void {
            for mut pos in __query_Position {
                pos.x += 1.0;
                pos.y -= 0.5;
            }
        }
    "#;

    let ast = sgs::parse_program(script).unwrap();
    let mut analyzer = sgs::analyzer::Analyzer::new();

    analyzer.define_var(
        "__query_Position".to_string(),
        false,
        sgs::analyzer::Type::Array(Box::new(sgs::analyzer::Type::Any)),
        &(0..0),
    );

    if let sgs::ast::SgsNode::SystemDef(sys) = &ast[0] {
        analyzer.register_functions(sys);
        for func in &sys.functions {
            analyzer.check_function(func);
        }
    }
    assert!(
        analyzer.errors.is_empty(),
        "静态检查失败: {:?}",
        analyzer.errors.iter().map(|e| &e.message).collect::<Vec<_>>()
    );
}

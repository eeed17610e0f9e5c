use klang::compiler::{compile, Chunk};
use klang::error::ErrorKind;
use klang::expr::Expr;
use klang::stmt::Stmt;
use klang::token::{Token, TokenType};
use klang::value::Value;
use klang::vm::{Outcome, VM};

fn tok(tt: TokenType, lexeme: &str, line: usize) -> Token {
    Token { tt, lexeme: lexeme.to_string(), literal: None, line }
}

fn num(n: i64, line: usize) -> Expr {
    Expr::Literal(Value::Number(n), line)
}

fn var(name: &str, line: usize) -> Expr {
    Expr::Variable(tok(TokenType::Identifier, name, line))
}

fn binary(left: Expr, op: TokenType, right: Expr, line: usize) -> Expr {
    Expr::Binary {
        left: Box::new(left),
        operator: tok(op, "", line),
        right: Box::new(right),
    }
}

/// `print "<text>"` with the given interpolation sub-expressions.
fn print_stmt(text: &str, printables: Vec<Expr>, line: usize) -> Stmt {
    Stmt::Print(Value::Str { string: text.to_string(), printables }, line)
}

fn let_stmt(name: &str, value: Expr, line: usize) -> Stmt {
    Stmt::Var { name: tok(TokenType::Identifier, name, line), value: Some(value) }
}

/// Compile and run a program to the end, expecting success, and hand back
/// the printed lines.
fn run_program(stmts: Vec<Stmt>) -> Vec<String> {
    let mut vm = VM::new(Chunk::new(compile(&stmts)), "test.klang");
    match vm.run(1_000_000) {
        Outcome::Finished => vm.output,
        Outcome::Stopped(f) => panic!("program stopped: {}", f.render("test.klang")),
        _ => panic!("program did not finish"),
    }
}

/// Compile and run a program, expecting it to die, and hand back the fault
/// kind.
fn run_expecting_fault(stmts: Vec<Stmt>) -> ErrorKind {
    let mut vm = VM::new(Chunk::new(compile(&stmts)), "test.klang");
    match vm.run(1_000_000) {
        Outcome::Stopped(f) => f.kind,
        _ => panic!("program should have stopped"),
    }
}

#[test]
fn store_then_load_prints_stored_value() {
    let out = run_program(vec![
        let_stmt("x", num(5, 1), 1),
        print_stmt("{}", vec![var("x", 2)], 2),
    ]);
    assert_eq!(out, vec!["5".to_string()]);
}

#[test]
fn subtraction_reads_left_to_right() {
    let out = run_program(vec![print_stmt("{}", vec![binary(num(7, 1), TokenType::Minus, num(2, 1), 1)], 1)]);
    assert_eq!(out, vec!["5".to_string()]);
}

#[test]
fn division_reads_left_to_right() {
    let out = run_program(vec![print_stmt("{}", vec![binary(num(10, 1), TokenType::Slash, num(5, 1), 1)], 1)]);
    assert_eq!(out, vec!["2".to_string()]);
}

#[test]
fn scope_close_forgets_inner_binding() {
    let kind = run_expecting_fault(vec![
        Stmt::Block(vec![let_stmt("inner", num(1, 2), 2)], (1, 3)),
        print_stmt("{}", vec![var("inner", 4)], 4),
    ]);
    assert!(matches!(kind, ErrorKind::UndefinedVariable));
}

#[test]
fn scope_close_leaves_parent_untouched() {
    let out = run_program(vec![
        let_stmt("x", num(9, 1), 1),
        Stmt::Block(vec![let_stmt("inner", num(1, 2), 2)], (2, 3)),
        print_stmt("{}", vec![var("x", 4)], 4),
    ]);
    assert_eq!(out, vec!["9".to_string()]);
}

#[test]
fn enclosed_block_mutates_outer_variable() {
    let out = run_program(vec![
        let_stmt("x", num(1, 1), 1),
        Stmt::Block(
            vec![Stmt::Expression(Expr::Assign {
                name: tok(TokenType::Identifier, "x", 2),
                value: Box::new(num(2, 2)),
            })],
            (2, 2),
        ),
        print_stmt("{}", vec![var("x", 3)], 3),
    ]);
    assert_eq!(out, vec!["2".to_string()]);
}

fn add_function_decl() -> Stmt {
    // fn add(a, b) { return a + b; }
    let body = Stmt::Block(
        vec![Stmt::Return(
            Some(binary(var("a", 2), TokenType::Plus, var("b", 2), 2)),
            2,
        )],
        (1, 3),
    );
    Stmt::FnDecl {
        name: tok(TokenType::Identifier, "add", 1),
        params: vec![tok(TokenType::Identifier, "a", 1), tok(TokenType::Identifier, "b", 1)],
        body: Box::new(body),
    }
}

#[test]
fn function_call_binds_parameters_in_declared_order() {
    // add(2, 3) must be 5; a takes 2 and b takes 3
    let call = Expr::Call {
        callee: Box::new(var("add", 4)),
        arguments: vec![num(2, 4), num(3, 4)],
        native: false,
    };
    let out = run_program(vec![add_function_decl(), print_stmt("{}", vec![call], 4)]);
    assert_eq!(out, vec!["5".to_string()]);
}

#[test]
fn parameter_order_not_push_order_decides() {
    // sub(7, 2) with fn sub(a, b) { return a - b; } must be 5, not -5
    let body = Stmt::Block(
        vec![Stmt::Return(
            Some(binary(var("a", 2), TokenType::Minus, var("b", 2), 2)),
            2,
        )],
        (1, 3),
    );
    let decl = Stmt::FnDecl {
        name: tok(TokenType::Identifier, "sub", 1),
        params: vec![tok(TokenType::Identifier, "a", 1), tok(TokenType::Identifier, "b", 1)],
        body: Box::new(body),
    };
    let call = Expr::Call {
        callee: Box::new(var("sub", 4)),
        arguments: vec![num(7, 4), num(2, 4)],
        native: false,
    };
    let out = run_program(vec![decl, print_stmt("{}", vec![call], 4)]);
    assert_eq!(out, vec!["5".to_string()]);
}

#[test]
fn recursion_succeeds_because_table_entry_survives() {
    // fn total(n) { if n == 0 { return 0; } return n + total(n - 1); }
    // total(3) = 6
    let recursive_call = Expr::Call {
        callee: Box::new(var("total", 3)),
        arguments: vec![binary(var("n", 3), TokenType::Minus, num(1, 3), 3)],
        native: false,
    };
    let body = Stmt::Block(
        vec![
            Stmt::If {
                condition: binary(var("n", 2), TokenType::EqualEqual, num(0, 2), 2),
                block: Box::new(Stmt::Block(vec![Stmt::Return(Some(num(0, 2)), 2)], (2, 2))),
                elseblock: None,
                lines: (2, None),
            },
            Stmt::Return(Some(binary(var("n", 3), TokenType::Plus, recursive_call, 3)), 3),
        ],
        (1, 4),
    );
    let decl = Stmt::FnDecl {
        name: tok(TokenType::Identifier, "total", 1),
        params: vec![tok(TokenType::Identifier, "n", 1)],
        body: Box::new(body),
    };
    let call = Expr::Call {
        callee: Box::new(var("total", 5)),
        arguments: vec![num(3, 5)],
        native: false,
    };
    let out = run_program(vec![decl, print_stmt("{}", vec![call], 5)]);
    assert_eq!(out, vec!["6".to_string()]);
}

#[test]
fn repeated_calls_use_the_same_entry() {
    let call = |n: i64| Expr::Call {
        callee: Box::new(var("add", 4)),
        arguments: vec![num(n, 4), num(1, 4)],
        native: false,
    };
    let out = run_program(vec![
        add_function_decl(),
        print_stmt("{}", vec![call(1)], 4),
        print_stmt("{}", vec![call(10)], 5),
    ]);
    assert_eq!(out, vec!["2".to_string(), "11".to_string()]);
}

#[test]
fn unknown_function_is_fatal() {
    let call = Expr::Call {
        callee: Box::new(var("ghost", 1)),
        arguments: vec![],
        native: false,
    };
    let kind = run_expecting_fault(vec![Stmt::Expression(call)]);
    assert!(matches!(kind, ErrorKind::UnknownFunction));
}

#[test]
fn too_few_arguments_is_fatal() {
    let call = Expr::Call {
        callee: Box::new(var("add", 4)),
        arguments: vec![num(2, 4)],
        native: false,
    };
    let kind = run_expecting_fault(vec![add_function_decl(), Stmt::Expression(call)]);
    assert!(matches!(kind, ErrorKind::ArityMismatch));
}

#[test]
fn interpolation_reads_left_to_right() {
    let out = run_program(vec![print_stmt(
        "{}+{}={}",
        vec![num(2, 1), num(3, 1), num(5, 1)],
        1,
    )]);
    assert_eq!(out, vec!["2+3=5".to_string()]);
}

#[test]
fn while_loop_counts_up() {
    // let i = 0; while i < 3 { i = i + 1; } print i
    let body = Stmt::Block(
        vec![Stmt::Expression(Expr::Assign {
            name: tok(TokenType::Identifier, "i", 2),
            value: Box::new(binary(var("i", 2), TokenType::Plus, num(1, 2), 2)),
        })],
        (2, 2),
    );
    let out = run_program(vec![
        let_stmt("i", num(0, 1), 1),
        Stmt::While {
            condition: binary(var("i", 2), TokenType::Less, num(3, 2), 2),
            block: Box::new(body),
            line: 2,
        },
        print_stmt("{}", vec![var("i", 3)], 3),
    ]);
    assert_eq!(out, vec!["3".to_string()]);
}

#[test]
fn for_loop_walks_a_range() {
    // for x in 0..3 { print x }
    let iterable = Expr::Range {
        min: Box::new(num(0, 1)),
        max: Box::new(num(3, 1)),
        step: None,
        line: 1,
    };
    let body = Stmt::Block(vec![print_stmt("{}", vec![var("x", 2)], 2)], (1, 3));
    let out = run_program(vec![Stmt::For {
        identifier: tok(TokenType::Identifier, "x", 1),
        iterable,
        block: Box::new(body),
        line: 1,
    }]);
    assert_eq!(out, vec!["0".to_string(), "1".to_string(), "2".to_string()]);
}

#[test]
fn if_else_takes_the_right_branch() {
    let thenb = Stmt::Block(vec![print_stmt("then", vec![], 1)], (1, 1));
    let elseb = Stmt::Block(vec![print_stmt("else", vec![], 2)], (2, 2));
    let out = run_program(vec![Stmt::If {
        condition: binary(num(1, 1), TokenType::Greater, num(2, 1), 1),
        block: Box::new(thenb),
        elseblock: Some(Box::new(elseb)),
        lines: (1, Some(2)),
    }]);
    assert_eq!(out, vec!["else".to_string()]);
}

#[test]
fn division_by_zero_in_program_is_fatal() {
    let kind = run_expecting_fault(vec![Stmt::Expression(binary(
        num(1, 1),
        TokenType::Slash,
        num(0, 1),
        1,
    ))]);
    assert!(matches!(kind, ErrorKind::DivisionByZero));
}

#[test]
fn native_call_round_trip() {
    // print tau() where tau is a native the host answers with 6
    let call = Expr::Call {
        callee: Box::new(var("tau", 1)),
        arguments: vec![],
        native: true,
    };
    let stmts = vec![print_stmt("{}", vec![call], 1)];
    let mut vm = VM::new(Chunk::new(compile(&stmts)), "test.klang");
    vm.register_native("tau".to_string(), 0);
    match vm.run(1000) {
        Outcome::AwaitNative { name, args } => {
            assert_eq!(name, "tau".to_string());
            assert!(args.is_empty());
        }
        _ => panic!("the native call must reach the host"),
    }
    vm.resume_native(Some(Value::Number(6)));
    assert!(matches!(vm.run(1000), Outcome::Finished));
    assert_eq!(vm.output, vec!["6".to_string()]);
}

#[test]
fn unknown_native_is_fatal() {
    let call = Expr::Call {
        callee: Box::new(var("nope", 1)),
        arguments: vec![],
        native: true,
    };
    let mut vm = VM::new(Chunk::new(compile(&vec![Stmt::Expression(call)])), "test.klang");
    match vm.run(1000) {
        Outcome::Stopped(f) => assert!(matches!(f.kind, ErrorKind::UnknownNativeFunction)),
        _ => panic!("an undeclared native must stop the machine"),
    }
}

#[test]
fn native_arity_mismatch_is_fatal() {
    let call = Expr::Call {
        callee: Box::new(var("tau", 1)),
        arguments: vec![num(1, 1)],
        native: true,
    };
    let mut vm = VM::new(Chunk::new(compile(&vec![Stmt::Expression(call)])), "test.klang");
    vm.register_native("tau".to_string(), 0);
    match vm.run(1000) {
        Outcome::Stopped(f) => assert!(matches!(f.kind, ErrorKind::NativeArityMismatch)),
        _ => panic!("a wrong argument count must stop the machine"),
    }
}

#[test]
fn native_arguments_arrive_in_source_order() {
    let call = Expr::Call {
        callee: Box::new(var("pair", 1)),
        arguments: vec![num(1, 1), num(2, 1)],
        native: true,
    };
    let mut vm = VM::new(Chunk::new(compile(&vec![Stmt::Expression(call)])), "test.klang");
    vm.register_native("pair".to_string(), 2);
    match vm.run(1000) {
        Outcome::AwaitNative { name: _, args } => {
            assert!(matches!(args[0], Value::Number(1)));
            assert!(matches!(args[1], Value::Number(2)));
        }
        _ => panic!("the native call must reach the host"),
    }
}

#[test]
fn nested_loops_follow_the_flag_tail_protocol() {
    // for x in 0..2 { for y in 0..2 { print "{},{}" x y } }
    //
    // The iteration protocol stores each loop's remaining tail on the
    // frame below the loop's own frame, and the exit pass jumps past the
    // frame's scope-close.  An inner loop's exit therefore leaves a frame
    // open, and the outer loop finds that frame - not the one holding its
    // tail - when it comes back around: the outer loop runs its first pass
    // and then dies on the missing tail.
    let inner_iterable = Expr::Range {
        min: Box::new(num(0, 2)),
        max: Box::new(num(2, 2)),
        step: None,
        line: 2,
    };
    let inner_body = Stmt::Block(
        vec![print_stmt("{},{}", vec![var("x", 3), var("y", 3)], 3)],
        (2, 4),
    );
    let inner = Stmt::For {
        identifier: tok(TokenType::Identifier, "y", 2),
        iterable: inner_iterable,
        block: Box::new(inner_body),
        line: 2,
    };
    let outer_iterable = Expr::Range {
        min: Box::new(num(0, 1)),
        max: Box::new(num(2, 1)),
        step: None,
        line: 1,
    };
    let stmts = vec![Stmt::For {
        identifier: tok(TokenType::Identifier, "x", 1),
        iterable: outer_iterable,
        block: Box::new(Stmt::Block(vec![inner], (1, 5))),
        line: 1,
    }];
    let mut vm = VM::new(Chunk::new(compile(&stmts)), "test.klang");
    match vm.run(1_000_000) {
        Outcome::Stopped(f) => assert!(matches!(f.kind, ErrorKind::TypeMismatch)),
        _ => panic!("the protocol loses the outer tail after the inner loop exits"),
    }
    assert_eq!(vm.output, vec!["0,0".to_string(), "0,1".to_string()]);
}

#[test]
fn list_literal_prints_its_elements() {
    let l = Expr::ListLit(vec![num(1, 1), num(2, 1), num(3, 1)]);
    let out = run_program(vec![print_stmt("{}", vec![l], 1)]);
    assert_eq!(out, vec!["[1,2,3]".to_string()]);
}

#[test]
fn range_prints_materialized_list() {
    let r = Expr::Range { min: Box::new(num(0, 1)), max: Box::new(num(5, 1)), step: None, line: 1 };
    let out = run_program(vec![print_stmt("{}", vec![r], 1)]);
    assert_eq!(out, vec!["[0,1,2,3,4]".to_string()]);
}

#[test]
fn stepped_range_prints_materialized_list() {
    let r = Expr::Range {
        min: Box::new(num(0, 1)),
        max: Box::new(num(10, 1)),
        step: Some(Box::new(num(2, 1))),
        line: 1,
    };
    let out = run_program(vec![print_stmt("{}", vec![r], 1)]);
    assert_eq!(out, vec!["[0,2,4,6,8]".to_string()]);
}

#[test]
fn output_before_a_fault_survives() {
    let out_then_fault = vec![
        print_stmt("first", vec![], 1),
        Stmt::Expression(binary(num(1, 2), TokenType::Slash, num(0, 2), 2)),
    ];
    let mut vm = VM::new(Chunk::new(compile(&out_then_fault)), "test.klang");
    match vm.run(1000) {
        Outcome::Stopped(f) => assert!(matches!(f.kind, ErrorKind::DivisionByZero)),
        _ => panic!("the division must stop the machine"),
    }
    assert_eq!(vm.output, vec!["first".to_string()]);
}

#[test]
fn fault_carries_the_source_line() {
    let stmts = vec![
        let_stmt("x", num(1, 1), 1),
        Stmt::Expression(binary(num(1, 7), TokenType::Slash, num(0, 7), 7)),
    ];
    let mut vm = VM::new(Chunk::new(compile(&stmts)), "test.klang");
    match vm.run(1000) {
        Outcome::Stopped(f) => {
            assert!(matches!(f.kind, ErrorKind::DivisionByZero));
            assert_eq!(f.line, 7);
        }
        _ => panic!("the division must stop the machine"),
    }
}

#[test]
fn falling_off_a_function_body_unwinds_the_call_scope() {
    // fn noop(b) { let x = b; }   noop(5);   -- no return anywhere:
    // reaching the end-of-function sentinel must close the call scope
    // (same unwind as a valueless return), bind nothing into the caller,
    // and push no value.
    let body = Stmt::Block(vec![let_stmt("x", var("b", 2), 2)], (1, 3));
    let decl = Stmt::FnDecl {
        name: tok(TokenType::Identifier, "noop", 1),
        params: vec![tok(TokenType::Identifier, "b", 1)],
        body: Box::new(body),
    };
    let call = Expr::Call { callee: Box::new(var("noop", 4)), arguments: vec![num(5, 4)], native: false };
    let stmts = vec![
        let_stmt("g", num(7, 1), 1),
        decl,
        Stmt::Expression(call),
        print_stmt("{}", vec![var("g", 5)], 5),
    ];
    let mut vm = VM::new(Chunk::new(compile(&stmts)), "test.klang");
    assert!(matches!(vm.run(1_000_000), Outcome::Finished));
    assert_eq!(vm.output, vec!["7".to_string()]);
    // only the global frame survives, and the callee's names went with it
    assert_eq!(vm.scopes.len(), 1);
    assert!(vm.get_var(&"b".to_string()).is_none());
    assert!(vm.get_var(&"x".to_string()).is_none());
}

#[test]
fn binding_after_a_fall_off_call_lands_in_the_caller_scope() {
    // After a function falls off its body, a following let must bind in
    // the caller's frame, not in a leaked call scope.
    let body = Stmt::Block(vec![], (1, 1));
    let decl = Stmt::FnDecl {
        name: tok(TokenType::Identifier, "noop", 1),
        params: vec![],
        body: Box::new(body),
    };
    let call = Expr::Call { callee: Box::new(var("noop", 2)), arguments: vec![], native: false };
    let stmts = vec![
        decl,
        Stmt::Expression(call),
        let_stmt("z", num(3, 3), 3),
        print_stmt("{}", vec![var("z", 4)], 4),
    ];
    let mut vm = VM::new(Chunk::new(compile(&stmts)), "test.klang");
    assert!(matches!(vm.run(1_000_000), Outcome::Finished));
    assert_eq!(vm.output, vec!["3".to_string()]);
    assert_eq!(vm.scopes.len(), 1);
    assert!(matches!(vm.get_var(&"z".to_string()), Some(Value::Number(3))));
}

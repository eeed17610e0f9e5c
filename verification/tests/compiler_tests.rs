use klang::compiler::{bin, compile, stmts_well_formed, un, Chunk};
use klang::opcode::OpCode;
use klang::stmt::Stmt;
use klang::expr::Expr;
use klang::token::{Token, TokenType};
use klang::value::Value;

fn tok(tt: TokenType, lexeme: &str, line: usize) -> Token {
    Token { tt, lexeme: lexeme.to_string(), literal: None, line }
}

fn num(n: i64, line: usize) -> Expr {
    Expr::Literal(Value::Number(n), line)
}

#[test]
fn var_lowering_pushes_then_stores() {
    let stmts = vec![Stmt::Var { name: tok(TokenType::Identifier, "x", 1), value: Some(num(5, 1)) }];
    let (code, lines) = compile(&stmts);
    assert_eq!(code.len(), 3);
    assert_eq!(lines.len(), 3);
    assert!(matches!(code[0], OpCode::Constant(Value::Number(5))));
    assert!(matches!(code[1], OpCode::Store(ref n) if n == "x"));
    assert!(matches!(code[2], OpCode::Eof));
    assert_eq!(lines, vec![1, 1, 0]);
}

#[test]
fn var_without_initializer_stores_none() {
    let stmts = vec![Stmt::Var { name: tok(TokenType::Identifier, "x", 2), value: None }];
    let (code, _) = compile(&stmts);
    assert!(matches!(code[0], OpCode::Constant(Value::Nil)));
    assert!(matches!(code[1], OpCode::Store(ref n) if n == "x"));
}

#[test]
fn binary_lowering_is_postorder() {
    let e = Expr::Binary {
        left: Box::new(num(1, 1)),
        operator: tok(TokenType::Plus, "+", 1),
        right: Box::new(num(2, 1)),
    };
    let (code, _) = compile(&vec![Stmt::Expression(e)]);
    assert!(matches!(code[0], OpCode::Constant(Value::Number(1))));
    assert!(matches!(code[1], OpCode::Constant(Value::Number(2))));
    assert!(matches!(code[2], OpCode::Add));
    assert!(matches!(code[3], OpCode::Eof));
}

#[test]
fn block_lowering_brackets_with_scope_markers() {
    let inner = Stmt::Var { name: tok(TokenType::Identifier, "y", 2), value: Some(num(1, 2)) };
    let stmts = vec![Stmt::Block(vec![inner], (1, 3))];
    let (code, lines) = compile(&stmts);
    assert!(matches!(code[0], OpCode::Scope));
    assert!(matches!(code[3], OpCode::EndScope));
    assert!(matches!(code[4], OpCode::Eof));
    assert_eq!(lines, vec![1, 2, 2, 3, 0]);
}

#[test]
fn while_lowering_jump_offsets() {
    // while true { }  -- condition is one constant, body is an empty block
    let cond = Expr::Literal(Value::Bool(true), 1);
    let body = Stmt::Block(vec![], (1, 1));
    let stmts = vec![Stmt::While { condition: cond, block: Box::new(body), line: 1 }];
    let (code, _) = compile(&stmts);
    // constant, not, jumpif(body+1), scope, endscope, jump, eof
    assert!(matches!(code[0], OpCode::Constant(Value::Bool(true))));
    assert!(matches!(code[1], OpCode::LogicalNot));
    assert!(matches!(code[2], OpCode::JumpIf(3, true)));
    assert!(matches!(code[3], OpCode::Scope));
    assert!(matches!(code[4], OpCode::EndScope));
    assert!(matches!(code[5], OpCode::Jump(-6)));
    assert!(matches!(code[6], OpCode::Eof));
}

#[test]
fn if_without_else_uses_peek_jump() {
    let cond = Expr::Literal(Value::Bool(false), 1);
    let body = Stmt::Block(vec![], (1, 1));
    let stmts = vec![Stmt::If {
        condition: cond,
        block: Box::new(body),
        elseblock: None,
        lines: (1, None),
    }];
    let (code, _) = compile(&stmts);
    assert!(matches!(code[0], OpCode::Constant(Value::Bool(false))));
    assert!(matches!(code[1], OpCode::LogicalNot));
    assert!(matches!(code[2], OpCode::JumpIf(2, true)));
    assert!(matches!(code[3], OpCode::Scope));
    assert!(matches!(code[4], OpCode::EndScope));
    assert!(matches!(code[5], OpCode::Eof));
}

#[test]
fn if_with_else_wraps_both_branches() {
    let cond = Expr::Literal(Value::Bool(true), 1);
    let thenb = Stmt::Block(vec![], (1, 1));
    let elseb = Stmt::Block(vec![], (2, 2));
    let stmts = vec![Stmt::If {
        condition: cond,
        block: Box::new(thenb),
        elseblock: Some(Box::new(elseb)),
        lines: (1, Some(2)),
    }];
    let (code, _) = compile(&stmts);
    assert!(matches!(code[2], OpCode::JumpIf(2, false)));
    assert!(matches!(code[5], OpCode::LogicalNot));
    assert!(matches!(code[6], OpCode::JumpIf(2, true)));
    assert!(matches!(code[9], OpCode::Eof));
}

#[test]
fn fn_lowering_emits_marker_params_body_name() {
    let body = Stmt::Block(vec![], (1, 2));
    let stmts = vec![Stmt::FnDecl {
        name: tok(TokenType::Identifier, "f", 1),
        params: vec![tok(TokenType::Identifier, "a", 1), tok(TokenType::Identifier, "b", 1)],
        body: Box::new(body),
    }];
    let (code, _) = compile(&stmts);
    assert!(matches!(code[0], OpCode::FnDef));
    assert!(matches!(code[1], OpCode::Store(ref n) if n == "a"));
    assert!(matches!(code[2], OpCode::Store(ref n) if n == "b"));
    assert!(matches!(code[3], OpCode::Scope));
    assert!(matches!(code[4], OpCode::EndScope));
    assert!(matches!(code[5], OpCode::Store(ref n) if n == "f"));
    assert!(matches!(code[6], OpCode::Eof));
}

#[test]
fn print_lowering_compiles_interpolations_first() {
    let lit = Value::Str {
        string: "{}".to_string(),
        printables: vec![num(7, 3)],
    };
    let stmts = vec![Stmt::Print(lit, 3)];
    let (code, _) = compile(&stmts);
    assert!(matches!(code[0], OpCode::Constant(Value::Number(7))));
    assert!(matches!(code[1], OpCode::Constant(Value::Str { ref string, ref printables })
        if string == "{}" && printables.is_empty()));
    assert!(matches!(code[2], OpCode::Print));
}

#[test]
fn range_lowering_with_and_without_step() {
    let r1 = Expr::Range { min: Box::new(num(0, 1)), max: Box::new(num(5, 1)), step: None, line: 1 };
    let (code, _) = compile(&vec![Stmt::Expression(r1)]);
    assert!(matches!(code[2], OpCode::Range(false)));
    let r2 = Expr::Range {
        min: Box::new(num(0, 1)),
        max: Box::new(num(10, 1)),
        step: Some(Box::new(num(2, 1))),
        line: 1,
    };
    let (code2, _) = compile(&vec![Stmt::Expression(r2)]);
    assert!(matches!(code2[3], OpCode::Range(true)));
}

#[test]
fn call_lowering_pushes_arguments_then_calls() {
    let call = Expr::Call {
        callee: Box::new(Expr::Variable(tok(TokenType::Identifier, "f", 4))),
        arguments: vec![num(2, 4), num(3, 4)],
        native: false,
    };
    let (code, lines) = compile(&vec![Stmt::Expression(call)]);
    assert!(matches!(code[0], OpCode::Constant(Value::Number(2))));
    assert!(matches!(code[1], OpCode::Constant(Value::Number(3))));
    assert!(matches!(code[2], OpCode::Call(ref n) if n == "f"));
    assert_eq!(code.len(), lines.len());
}

#[test]
fn native_call_lowering_carries_count() {
    let call = Expr::Call {
        callee: Box::new(Expr::Variable(tok(TokenType::Identifier, "pi", 4))),
        arguments: vec![],
        native: true,
    };
    let (code, _) = compile(&vec![Stmt::Expression(call)]);
    assert!(matches!(code[0], OpCode::NativeCall(ref n, 0) if n == "pi"));
}

#[test]
fn list_literal_lowering_counts_elements() {
    let l = Expr::ListLit(vec![num(1, 1), num(2, 1), num(3, 1)]);
    let (code, _) = compile(&vec![Stmt::Expression(l)]);
    assert!(matches!(code[3], OpCode::Iterable(3)));
}

#[test]
fn operator_token_mapping() {
    assert!(matches!(bin(TokenType::Plus), OpCode::Add));
    assert!(matches!(bin(TokenType::Slash), OpCode::Divide));
    assert!(matches!(bin(TokenType::BangEqual), OpCode::NotEqual));
    assert!(matches!(un(TokenType::Minus), OpCode::Negate));
    assert!(matches!(un(TokenType::Bang), OpCode::LogicalNot));
}

#[test]
fn chunk_keeps_code_and_lines_aligned() {
    let stmts = vec![Stmt::Var { name: tok(TokenType::Identifier, "x", 9), value: Some(num(1, 9)) }];
    let chunk = Chunk::new(compile(&stmts));
    assert_eq!(chunk.code.len(), chunk.lines.len());
}

#[test]
fn shape_check_accepts_parser_output() {
    let stmts = vec![
        Stmt::Var { name: tok(TokenType::Identifier, "x", 1), value: Some(num(5, 1)) },
        Stmt::Expression(Expr::Binary {
            left: Box::new(num(1, 2)),
            operator: tok(TokenType::Plus, "+", 2),
            right: Box::new(num(2, 2)),
        }),
    ];
    assert!(stmts_well_formed(&stmts));
}

#[test]
fn shape_check_rejects_a_rogue_operator_token() {
    // a binary node whose operator token is not an operator
    let stmts = vec![Stmt::Expression(Expr::Binary {
        left: Box::new(num(1, 1)),
        operator: tok(TokenType::Comma, ",", 1),
        right: Box::new(num(2, 1)),
    })];
    assert!(!stmts_well_formed(&stmts));
}

#[test]
fn shape_check_rejects_an_else_without_its_line() {
    let stmts = vec![Stmt::If {
        condition: Expr::Literal(Value::Bool(true), 1),
        block: Box::new(Stmt::Block(vec![], (1, 1))),
        elseblock: Some(Box::new(Stmt::Block(vec![], (2, 2)))),
        lines: (1, None),
    }];
    assert!(!stmts_well_formed(&stmts));
}

#[test]
fn shape_check_rejects_a_computed_callee() {
    let stmts = vec![Stmt::Expression(Expr::Call {
        callee: Box::new(num(1, 1)),
        arguments: vec![],
        native: false,
    })];
    assert!(!stmts_well_formed(&stmts));
}

#[test]
fn disassembly_lists_every_instruction() {
    let chunk = Chunk::new((
        vec![
            OpCode::Constant(Value::Number(5)),
            OpCode::Store("x".to_string()),
            OpCode::Jump(-2),
            OpCode::JumpIf(3, true),
            OpCode::NativeCall("pi".to_string(), 0),
            OpCode::Range(false),
            OpCode::Eof,
        ],
        vec![1, 1, 2, 2, 3, 4, 0],
    ));
    let listing = chunk.disassemble();
    let expected = vec![
        "0 | Constant 5 | 1",
        "1 | Store x | 1",
        "2 | Jump -2 | 2",
        "3 | JumpIf 3 true | 2",
        "4 | NativeCall pi 0 | 3",
        "5 | Range false | 4",
        "6 | Eof | 0",
    ];
    assert_eq!(listing.len(), expected.len());
    for (got, want) in listing.iter().zip(expected.iter()) {
        assert_eq!(got, want);
    }
}

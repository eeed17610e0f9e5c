use klang::compiler::Chunk;
use klang::error::ErrorKind;
use klang::opcode::OpCode;
use klang::token::TokenType;
use klang::value::Value;
use klang::vm::{Outcome, Scope, VM};

fn machine(code: Vec<OpCode>) -> VM<'static> {
    let lines = vec![0; code.len()];
    VM::new(Chunk::new((code, lines)), "test.klang")
}

#[test]
fn subtraction_is_left_minus_right() {
    let mut vm = machine(vec![]);
    vm.push(Value::Number(7));
    vm.push(Value::Number(2));
    assert!(vm.bin_op(TokenType::Minus).is_none());
    assert!(matches!(vm.top(), Some(Value::Number(5))));
}

#[test]
fn division_is_left_over_right() {
    let mut vm = machine(vec![]);
    vm.push(Value::Number(10));
    vm.push(Value::Number(4));
    assert!(vm.bin_op(TokenType::Slash).is_none());
    assert!(matches!(vm.top(), Some(Value::Number(2))));
}

#[test]
fn division_by_zero_is_fatal_and_pushes_nothing() {
    let mut vm = machine(vec![]);
    vm.push(Value::Number(3));
    vm.push(Value::Number(0));
    let fault = vm.bin_op(TokenType::Slash).expect("division by zero must fail");
    assert!(matches!(fault.kind, ErrorKind::DivisionByZero));
    assert!(vm.top().is_none());
}

#[test]
fn modulo_by_zero_is_fatal_and_pushes_nothing() {
    let mut vm = machine(vec![]);
    vm.push(Value::Number(3));
    vm.push(Value::Number(0));
    let fault = vm.bin_op(TokenType::Modulo).expect("modulo by zero must fail");
    assert!(matches!(fault.kind, ErrorKind::DivisionByZero));
    assert!(vm.top().is_none());
}

#[test]
fn cross_kind_equality_never_errors() {
    let mut vm = machine(vec![]);
    vm.push(Value::Number(2));
    vm.push(Value::Bool(true));
    assert!(vm.bin_op(TokenType::EqualEqual).is_none());
    assert!(matches!(vm.top(), Some(Value::Bool(false))));
    let mut vm2 = machine(vec![]);
    vm2.push(Value::Number(2));
    vm2.push(Value::Bool(true));
    assert!(vm2.bin_op(TokenType::BangEqual).is_none());
    assert!(matches!(vm2.top(), Some(Value::Bool(true))));
}

#[test]
fn string_equality_compares_text() {
    let mut vm = machine(vec![]);
    vm.push(Value::Str { string: "ab".to_string(), printables: vec![] });
    vm.push(Value::Str { string: "ab".to_string(), printables: vec![] });
    assert!(vm.bin_op(TokenType::EqualEqual).is_none());
    assert!(matches!(vm.top(), Some(Value::Bool(true))));
}

#[test]
fn comparison_on_mismatched_kinds_is_fatal() {
    let mut vm = machine(vec![]);
    vm.push(Value::Number(2));
    vm.push(Value::Bool(true));
    let fault = vm.bin_op(TokenType::Less).expect("comparing a number with a bool must fail");
    assert!(matches!(fault.kind, ErrorKind::TypeMismatch));
}

#[test]
fn jump_out_of_bounds_is_fatal_before_ip_moves() {
    let mut vm = machine(vec![OpCode::Jump(100), OpCode::Eof]);
    let outcome = vm.run(10);
    match outcome {
        Outcome::Stopped(f) => assert!(matches!(f.kind, ErrorKind::OutOfBoundsJump)),
        _ => panic!("an out-of-bounds jump must stop the machine"),
    }
    assert_eq!(vm.index, 0);
}

#[test]
fn backward_jump_out_of_bounds_is_fatal() {
    let mut vm = machine(vec![OpCode::Eof, OpCode::Jump(-5), OpCode::Eof]);
    let outcome = vm.run(10);
    match outcome {
        Outcome::Stopped(f) => assert!(matches!(f.kind, ErrorKind::OutOfBoundsJump)),
        _ => panic!("an out-of-bounds jump must stop the machine"),
    }
    assert_eq!(vm.index, 1);
}

#[test]
fn jump_to_code_end_finishes_cleanly() {
    let mut vm = machine(vec![OpCode::Jump(2), OpCode::Eof]);
    assert!(matches!(vm.run(10), Outcome::Finished));
}

#[test]
fn store_then_load_returns_stored_value() {
    let mut vm = machine(vec![]);
    vm.push(Value::Number(42));
    vm.set_var("x".to_string());
    match vm.get_var(&"x".to_string()) {
        Some(Value::Number(n)) => assert_eq!(n, 42),
        _ => panic!("the stored value must come back"),
    }
}

#[test]
fn load_of_unknown_name_is_fatal() {
    let mut vm = machine(vec![OpCode::Load("nope".to_string()), OpCode::Eof]);
    match vm.run(10) {
        Outcome::Stopped(f) => assert!(matches!(f.kind, ErrorKind::UndefinedVariable)),
        _ => panic!("loading an unbound name must stop the machine"),
    }
}

#[test]
fn name_bound_in_closed_scope_is_gone() {
    let code = vec![
        OpCode::Scope,
        OpCode::Constant(Value::Number(1)),
        OpCode::Store("inner".to_string()),
        OpCode::EndScope,
        OpCode::Load("inner".to_string()),
        OpCode::Eof,
    ];
    let mut vm = machine(code);
    match vm.run(20) {
        Outcome::Stopped(f) => assert!(matches!(f.kind, ErrorKind::UndefinedVariable)),
        _ => panic!("the binding must vanish with its scope"),
    }
}

#[test]
fn store_overwrites_outer_binding_from_inner_scope() {
    let code = vec![
        OpCode::Constant(Value::Number(1)),
        OpCode::Store("x".to_string()),
        OpCode::Scope,
        OpCode::Constant(Value::Number(2)),
        OpCode::Store("x".to_string()),
        OpCode::EndScope,
        OpCode::Eof,
    ];
    let mut vm = machine(code);
    assert!(matches!(vm.run(20), Outcome::Finished));
    match vm.get_var(&"x".to_string()) {
        Some(Value::Number(n)) => assert_eq!(n, 2),
        _ => panic!("the outer binding must hold the overwritten value"),
    }
}

#[test]
fn range_materializes_half_open_interval() {
    let mut vm = machine(vec![]);
    vm.push(Value::Number(0));
    vm.push(Value::Number(5));
    assert!(vm.range(false).is_none());
    match vm.top() {
        Some(Value::List(items)) => {
            let expected: Vec<i64> = vec![0, 1, 2, 3, 4];
            assert_eq!(items.len(), expected.len());
            for (item, want) in items.iter().zip(expected.iter()) {
                assert!(matches!(item, Value::Number(n) if n == want));
            }
        }
        _ => panic!("range must leave a list"),
    }
}

#[test]
fn range_with_step_skips() {
    let mut vm = machine(vec![]);
    vm.push(Value::Number(0));
    vm.push(Value::Number(10));
    vm.push(Value::Number(2));
    assert!(vm.range(true).is_none());
    match vm.top() {
        Some(Value::List(items)) => {
            let expected: Vec<i64> = vec![0, 2, 4, 6, 8];
            assert_eq!(items.len(), expected.len());
            for (item, want) in items.iter().zip(expected.iter()) {
                assert!(matches!(item, Value::Number(n) if n == want));
            }
        }
        _ => panic!("range must leave a list"),
    }
}

#[test]
fn empty_range_is_empty_list() {
    let mut vm = machine(vec![]);
    vm.push(Value::Number(5));
    vm.push(Value::Number(5));
    assert!(vm.range(false).is_none());
    assert!(matches!(vm.top(), Some(Value::List(items)) if items.is_empty()));
}

#[test]
fn range_with_nonpositive_step_is_fatal() {
    let mut vm = machine(vec![]);
    vm.push(Value::Number(0));
    vm.push(Value::Number(5));
    vm.push(Value::Number(0));
    let fault = vm.range(true).expect("a zero step must fail");
    assert!(matches!(fault.kind, ErrorKind::TypeMismatch));
}

#[test]
fn iterable_keeps_source_order() {
    let mut vm = machine(vec![]);
    vm.push(Value::Number(1));
    vm.push(Value::Number(2));
    vm.push(Value::Number(3));
    assert!(vm.iterable(3).is_none());
    match vm.top() {
        Some(Value::List(items)) => {
            assert!(matches!(items[0], Value::Number(1)));
            assert!(matches!(items[1], Value::Number(2)));
            assert!(matches!(items[2], Value::Number(3)));
        }
        _ => panic!("iterable must leave a list"),
    }
}

#[test]
fn pop_of_empty_stack_underflows_binop() {
    let mut vm = machine(vec![]);
    vm.push(Value::Number(1));
    let fault = vm.bin_op(TokenType::Plus).expect("one operand is too few");
    assert!(matches!(fault.kind, ErrorKind::StackUnderflow));
}

#[test]
fn negate_and_not() {
    let mut vm = machine(vec![]);
    vm.push(Value::Number(6));
    assert!(vm.un_op(TokenType::Minus).is_none());
    assert!(matches!(vm.top(), Some(Value::Number(-6))));
    let mut vm2 = machine(vec![]);
    vm2.push(Value::Bool(false));
    assert!(vm2.un_op(TokenType::Bang).is_none());
    assert!(matches!(vm2.top(), Some(Value::Bool(true))));
}

#[test]
fn scope_new_is_empty() {
    let s = Scope::new();
    assert!(s.callframe.is_empty());
    assert!(s.stack.is_empty());
}

#[test]
fn step_limit_pauses_and_resumes() {
    let code = vec![
        OpCode::Constant(Value::Number(1)),
        OpCode::Constant(Value::Number(2)),
        OpCode::Add,
        OpCode::Eof,
    ];
    let mut vm = machine(code);
    assert!(matches!(vm.run(1), Outcome::StepLimit));
    assert!(matches!(vm.run(100), Outcome::Finished));
    assert!(matches!(vm.top(), Some(Value::Number(3))));
}

#[test]
fn inner_binding_shadows_outer_until_scope_closes() {
    let mut vm = machine(vec![]);
    vm.push(Value::Number(1));
    vm.set_var("x".to_string());
    vm.create_inner();
    vm.push(Value::Number(2));
    vm.set_var_inner("x".to_string());
    assert!(matches!(vm.get_var(&"x".to_string()), Some(Value::Number(2))));
    assert!(vm.close_inner());
    assert!(matches!(vm.get_var(&"x".to_string()), Some(Value::Number(1))));
}

use klang::compiler::Chunk;
use klang::error::{ErrorKind, Fault, KlangError};
use klang::render::{dec_u128, dec_u64, i128_to_string, i64_to_string, render_value};
use klang::value::Value;
use klang::vm::VM;
use klang::index;

fn scratch_vm() -> VM<'static> {
    VM::new(Chunk::new((vec![], vec![])), "scratch.klang")
}

#[test]
fn decimal_rendering_of_unsigned_numbers() {
    assert_eq!(dec_u64(0), "0".to_string());
    assert_eq!(dec_u64(7), "7".to_string());
    assert_eq!(dec_u64(10), "10".to_string());
    assert_eq!(dec_u64(90210), "90210".to_string());
    assert_eq!(dec_u64(u64::MAX), "18446744073709551615".to_string());
}

#[test]
fn decimal_rendering_of_signed_numbers() {
    assert_eq!(i64_to_string(0), "0".to_string());
    assert_eq!(i64_to_string(42), "42".to_string());
    assert_eq!(i64_to_string(-42), "-42".to_string());
    assert_eq!(i64_to_string(i64::MIN), "-9223372036854775808".to_string());
    assert_eq!(i64_to_string(i64::MAX), "9223372036854775807".to_string());
}

#[test]
fn value_rendering_by_kind() {
    assert_eq!(render_value(&Value::Number(3)), "3".to_string());
    assert_eq!(render_value(&Value::Bool(true)), "true".to_string());
    assert_eq!(render_value(&Value::Bool(false)), "false".to_string());
    assert_eq!(render_value(&Value::Nil), "None".to_string());
    assert_eq!(
        render_value(&Value::Str { string: "hey".to_string(), printables: vec![] }),
        "hey".to_string()
    );
    let list = Value::List(vec![Value::Number(1), Value::Bool(false), Value::Nil]);
    assert_eq!(render_value(&list), "[1,false,None]".to_string());
    let nested = Value::List(vec![Value::List(vec![Value::Number(1)]), Value::Number(2)]);
    assert_eq!(render_value(&nested), "[[1],2]".to_string());
    assert_eq!(render_value(&Value::List(vec![])), "[]".to_string());
}

#[test]
fn brace_counting_sees_balanced_groups() {
    let vm = scratch_vm();
    assert_eq!(vm.count_braces(""), 0);
    assert_eq!(vm.count_braces("no braces"), 0);
    assert_eq!(vm.count_braces("{}"), 1);
    assert_eq!(vm.count_braces("{} and {}"), 2);
    assert_eq!(vm.count_braces("{{}}"), 1);
    assert_eq!(vm.count_braces("}{"), 0);
    assert_eq!(vm.count_braces("{}+{}={}"), 3);
}

#[test]
fn replacement_hits_the_last_pair() {
    let vm = scratch_vm();
    assert_eq!(vm.replace_last_braces("{} {}", "X"), "{} X".to_string());
    assert_eq!(vm.replace_last_braces("a{}b", "X"), "aXb".to_string());
    assert_eq!(vm.replace_last_braces("none here", "X"), "none here".to_string());
    assert_eq!(vm.replace_last_braces("", "X"), "".to_string());
}

#[test]
fn diagnostic_line_layout() {
    let line = KlangError::error(KlangError::RuntimeError, "it broke", 7, "main.klang");
    assert_eq!(line, "[RuntimeError] main.klang at line 7: it broke".to_string());
    let parser = KlangError::error(KlangError::ParserError, "bad token", 2, "a.klang");
    assert_eq!(parser, "[ParserError] a.klang at line 2: bad token".to_string());
}

#[test]
fn fault_rendering_names_its_kind() {
    let fault = Fault { kind: ErrorKind::DivisionByZero, line: 3, msg: "division by zero".to_string() };
    assert_eq!(
        fault.render("prog.klang"),
        "[DivisionByZero] prog.klang at line 3: division by zero".to_string()
    );
    let fault2 = Fault { kind: ErrorKind::StackUnderflow, line: 0, msg: "empty".to_string() };
    assert_eq!(fault2.render("p"), "[StackUnderflow] p at line 0: empty".to_string());
}

#[test]
fn error_kind_names() {
    assert_eq!(ErrorKind::UndefinedVariable.name(), "UndefinedVariable");
    assert_eq!(ErrorKind::OutOfBoundsJump.name(), "OutOfBoundsJump");
    assert_eq!(ErrorKind::NativeArityMismatch.name(), "NativeArityMismatch");
    assert_eq!(ErrorKind::UnknownNativeFunction.name(), "UnknownNativeFunction");
    assert_eq!(ErrorKind::ArityMismatch.name(), "ArityMismatch");
    assert_eq!(ErrorKind::UnknownFunction.name(), "UnknownFunction");
    assert_eq!(ErrorKind::TypeMismatch.name(), "TypeMismatch");
}

#[test]
fn greeting_text() {
    assert_eq!(index(), "Hello, world!");
}

#[test]
fn duplicate_preserves_runtime_content() {
    let v = Value::List(vec![
        Value::Number(1),
        Value::Str { string: "s".to_string(), printables: vec![] },
    ]);
    let copy = v.duplicate();
    assert_eq!(render_value(&copy), render_value(&v));
}

#[test]
fn wide_decimal_rendering() {
    assert_eq!(dec_u128(0), "0".to_string());
    assert_eq!(dec_u128(u128::MAX), "340282366920938463463374607431768211455".to_string());
    assert_eq!(i128_to_string(-7), "-7".to_string());
    assert_eq!(i128_to_string(i128::MIN), "-170141183460469231731687303715884105728".to_string());
    assert_eq!(i128_to_string(i128::MAX), "170141183460469231731687303715884105727".to_string());
}

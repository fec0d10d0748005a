use sophie::chunk::{init_chunk, Chunk, Opcode};
use sophie::machine::{Answer, InterpretResult};
use sophie::value::ValueType;
use sophie::vm::{init_vm, FloatTask, VM};

fn number(v: &ValueType) -> f64 {
    match v {
        ValueType::INT(n) => *n as f64,
        ValueType::FLOAT(bits) => f64::from_bits(*bits),
        _ => panic!("no number"),
    }
}

fn host(task: FloatTask) -> Answer {
    match task {
        FloatTask::Literal(digits) => {
            let text = String::from_utf8(digits).unwrap();
            Answer::Number(text.parse::<f64>().unwrap().to_bits())
        }
        FloatTask::Binary(op, l, r) => {
            let a = number(&l);
            let b = number(&r);
            match op {
                Opcode::OPADD => Answer::Number((a + b).to_bits()),
                Opcode::OPSUBTRACT => Answer::Number((a - b).to_bits()),
                Opcode::OPMULTIPLY => Answer::Number((a * b).to_bits()),
                Opcode::OPDIVIDE => Answer::Number((a / b).to_bits()),
                Opcode::OPLT => Answer::Truth(a < b),
                Opcode::OPGT => Answer::Truth(a > b),
                Opcode::OPLTE => Answer::Truth(a <= b),
                Opcode::OPGTE => Answer::Truth(a >= b),
                Opcode::OPEQUAL => Answer::Truth(a == b),
                _ => panic!("no float instruction"),
            }
        }
    }
}

fn evaluate(source: &str) -> (InterpretResult, VM, Chunk) {
    let mut chunk = init_chunk();
    let mut vm = init_vm();
    let mut why = vm.interpret(source, &mut chunk);
    while why == InterpretResult::Suspended {
        let task = vm.float_task(&chunk).unwrap();
        why = match vm.resume(&chunk, host(task)) {
            Some(stop) => stop,
            None => vm.run(&chunk),
        };
    }
    (why, vm, chunk)
}

#[test]
fn adds_two_integers() {
    let (why, vm, _) = evaluate("(+ 1 2)");
    assert_eq!(why, InterpretResult::Success);
    assert!(matches!(vm.result, Some(ValueType::INT(3))));
}

#[test]
fn subtraction_takes_the_right_operand_from_the_left() {
    let (why, vm, _) = evaluate("(- 10 3)");
    assert_eq!(why, InterpretResult::Success);
    assert!(matches!(vm.result, Some(ValueType::INT(7))));
}

#[test]
fn an_operator_on_two_operands_takes_no_third() {
    let (why, vm, _) = evaluate("(- 10 3 2)");
    assert_eq!(why, InterpretResult::CompileError);
    assert!(vm.result.is_none());
}

#[test]
fn an_operator_on_two_operands_takes_no_fewer() {
    assert_eq!(evaluate("(+ 1)").0, InterpretResult::CompileError);
    assert_eq!(evaluate("(=)").0, InterpretResult::CompileError);
    assert_eq!(evaluate("(< 1 2 3)").0, InterpretResult::CompileError);
    assert_eq!(evaluate("(* (+ 1 2 3) 4)").0, InterpretResult::CompileError);
    assert_eq!(evaluate("(/ 8 2)").0, InterpretResult::Success);
}

#[test]
fn if_true_takes_the_first_branch() {
    let (why, vm, _) = evaluate("(if true 1 2)");
    assert_eq!(why, InterpretResult::Success);
    assert!(matches!(vm.result, Some(ValueType::INT(1))));
}

#[test]
fn if_false_takes_the_second_branch() {
    let (why, vm, _) = evaluate("(if false 1 2)");
    assert_eq!(why, InterpretResult::Success);
    assert!(matches!(vm.result, Some(ValueType::INT(2))));
}

#[test]
fn if_nil_without_else_gives_nil() {
    let (why, vm, _) = evaluate("(if nil 1)");
    assert_eq!(why, InterpretResult::Success);
    assert!(matches!(vm.result, Some(ValueType::NIL)));
}

#[test]
fn def_binds_and_the_next_expression_sees_it() {
    let (why, vm, _) = evaluate("(def x 7) (+ x 1)");
    assert_eq!(why, InterpretResult::Success);
    assert!(matches!(vm.result, Some(ValueType::INT(8))));
    assert!(vm.stack.is_empty());
}

#[test]
fn len_of_a_string_is_its_length_in_bytes() {
    let (why, vm, _) = evaluate("(len \"hello\")");
    assert_eq!(why, InterpretResult::Success);
    assert!(matches!(vm.result, Some(ValueType::INT(5))));
}

#[test]
fn len_of_a_number_is_nil() {
    let (why, vm, _) = evaluate("(len 3)");
    assert_eq!(why, InterpretResult::Success);
    assert!(matches!(vm.result, Some(ValueType::NIL)));
}

#[test]
fn equal_integers_are_equal() {
    let (why, vm, _) = evaluate("(= 1 1)");
    assert_eq!(why, InterpretResult::Success);
    assert!(matches!(vm.result, Some(ValueType::BOOL(true))));
}

#[test]
fn an_integer_and_a_float_are_never_equal() {
    let (why, vm, _) = evaluate("(= 1 1.0)");
    assert_eq!(why, InterpretResult::Success);
    assert!(matches!(vm.result, Some(ValueType::BOOL(false))));
}

#[test]
fn mixed_arithmetic_gives_a_float() {
    let (why, vm, _) = evaluate("(+ 1 2.5)");
    assert_eq!(why, InterpretResult::Success);
    match vm.result {
        Some(ValueType::FLOAT(bits)) => assert_eq!(f64::from_bits(bits), 3.5),
        _ => panic!("no float"),
    }
}

#[test]
fn code_for_an_addition() {
    let (_, _, chunk) = evaluate("(+ 1 2)");
    assert_eq!(chunk.code, vec![0, 0, 0, 1, 2, 6]);
    assert_eq!(chunk.lines, vec![1, 1, 1, 1, 1, 0]);
    assert_eq!(chunk.constants.values.len(), 2);
}

#[test]
fn code_for_an_if_without_else() {
    let (_, _, chunk) = evaluate("(if nil 1)");
    assert_eq!(chunk.code, vec![7, 22, 7, 0, 0, 23, 8, 7, 6]);
}

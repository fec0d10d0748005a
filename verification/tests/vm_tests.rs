use sophie::chunk::{init_chunk, Chunk, Opcode};
use sophie::machine::{Answer, InterpretResult};
use sophie::value::{ConstantType, ValueType};
use sophie::vm::{
    apply_binary, free_vm, init_vm, int_arithmetic, is_falsey, values_equal, BinaryResult,
    FloatTask, VM,
};

fn chunk_of(code: &[u8], constants: Vec<ConstantType>) -> Chunk {
    let mut chunk = init_chunk();
    for byte in code {
        chunk.write_chunk(*byte, 1);
    }
    for constant in constants {
        chunk.add_constant(constant);
    }
    chunk
}

fn machine_with(stack: Vec<ValueType>) -> VM {
    let mut vm = init_vm();
    vm.stack = stack;
    vm
}

fn string(text: &str) -> ValueType {
    ValueType::STRING(text.as_bytes().to_vec())
}

#[test]
fn a_new_machine_is_empty() {
    let vm = init_vm();
    assert_eq!(vm.ip, 0);
    assert!(vm.stack.is_empty());
    assert!(vm.symbols.is_empty());
    assert!(vm.output.is_empty());
    assert!(vm.result.is_none());
    free_vm();
}

#[test]
fn nil_and_false_are_falsey_and_nothing_else_is() {
    assert!(is_falsey(&ValueType::NIL));
    assert!(is_falsey(&ValueType::BOOL(false)));
    assert!(!is_falsey(&ValueType::BOOL(true)));
    assert!(!is_falsey(&ValueType::INT(0)));
    assert!(!is_falsey(&ValueType::FLOAT(0)));
    assert!(!is_falsey(&string("")));
    assert!(!is_falsey(&ValueType::SYMBOL(Vec::new())));
}

#[test]
fn values_of_one_variant_are_equal_if_they_hold_the_same() {
    assert_eq!(values_equal(&ValueType::NIL, &ValueType::NIL), Some(true));
    assert_eq!(values_equal(&ValueType::INT(3), &ValueType::INT(3)), Some(true));
    assert_eq!(values_equal(&ValueType::INT(3), &ValueType::INT(4)), Some(false));
    assert_eq!(values_equal(&ValueType::BOOL(true), &ValueType::BOOL(true)), Some(true));
    assert_eq!(values_equal(&ValueType::BOOL(true), &ValueType::BOOL(false)), Some(false));
    assert_eq!(values_equal(&string("ab"), &string("ab")), Some(true));
    assert_eq!(values_equal(&string("ab"), &string("ac")), Some(false));
    assert_eq!(values_equal(&string("ab"), &string("abc")), Some(false));
}

#[test]
fn values_of_different_variants_are_never_equal() {
    assert_eq!(values_equal(&ValueType::INT(1), &ValueType::FLOAT(1.0f64.to_bits())), Some(false));
    assert_eq!(values_equal(&ValueType::NIL, &ValueType::BOOL(false)), Some(false));
    assert_eq!(values_equal(&ValueType::INT(0), &ValueType::NIL), Some(false));
    assert_eq!(
        values_equal(&string("x"), &ValueType::SYMBOL(b"x".to_vec())),
        Some(false)
    );
}

#[test]
fn whether_two_floats_are_equal_is_for_the_host_to_say() {
    assert_eq!(values_equal(&ValueType::FLOAT(7), &ValueType::FLOAT(7)), None);
}

#[test]
fn arithmetic_on_integers_gives_an_integer() {
    assert_eq!(int_arithmetic(Opcode::OPADD, 2, 3), Some(5));
    assert_eq!(int_arithmetic(Opcode::OPSUBTRACT, 2, 3), Some(-1));
    assert_eq!(int_arithmetic(Opcode::OPMULTIPLY, -4, 3), Some(-12));
    assert_eq!(int_arithmetic(Opcode::OPDIVIDE, 7, 2), Some(3));
    assert_eq!(int_arithmetic(Opcode::OPDIVIDE, -7, 2), Some(-3));
    assert_eq!(int_arithmetic(Opcode::OPDIVIDE, 7, -2), Some(-3));
}

#[test]
fn arithmetic_out_of_range_has_no_result() {
    assert_eq!(int_arithmetic(Opcode::OPADD, i64::MAX, 1), None);
    assert_eq!(int_arithmetic(Opcode::OPSUBTRACT, i64::MIN, 1), None);
    assert_eq!(int_arithmetic(Opcode::OPMULTIPLY, i64::MAX, 2), None);
    assert_eq!(int_arithmetic(Opcode::OPDIVIDE, 1, 0), None);
    assert_eq!(int_arithmetic(Opcode::OPDIVIDE, i64::MIN, -1), None);
    assert_eq!(int_arithmetic(Opcode::OPNOT, 1, 1), None);
}

#[test]
fn mixed_numbers_are_for_the_host() {
    let int = ValueType::INT(1);
    let float = ValueType::FLOAT(2.0f64.to_bits());
    assert!(matches!(apply_binary(Opcode::OPADD, &int, &float), BinaryResult::Host));
    assert!(matches!(apply_binary(Opcode::OPADD, &float, &int), BinaryResult::Host));
    assert!(matches!(apply_binary(Opcode::OPLT, &float, &float), BinaryResult::Host));
    assert!(matches!(
        apply_binary(Opcode::OPADD, &int, &int),
        BinaryResult::Value(ValueType::INT(2))
    ));
    assert!(matches!(
        apply_binary(Opcode::OPLT, &int, &int),
        BinaryResult::Value(ValueType::BOOL(false))
    ));
    assert!(matches!(apply_binary(Opcode::OPADD, &int, &ValueType::NIL), BinaryResult::Fault));
    assert!(matches!(apply_binary(Opcode::OPGT, &string("a"), &int), BinaryResult::Fault));
    assert!(matches!(apply_binary(Opcode::OPPOP, &int, &int), BinaryResult::Fault));
}

#[test]
fn peek_counts_from_the_top() {
    let vm = machine_with(vec![ValueType::INT(1), ValueType::INT(2), ValueType::INT(3)]);
    assert!(matches!(vm.peek(0), ValueType::INT(3)));
    assert!(matches!(vm.peek(1), ValueType::INT(2)));
    assert!(matches!(vm.peek(2), ValueType::INT(1)));
}

#[test]
fn a_constant_is_pushed() {
    let chunk = chunk_of(
        &[0, 1, 0, 0],
        vec![ConstantType::STRING(b"s".to_vec()), ConstantType::INT(42)],
    );
    let mut vm = init_vm();
    assert_eq!(vm.step(&chunk), None);
    assert_eq!(vm.ip, 2);
    assert!(matches!(vm.stack[0], ValueType::INT(42)));
    assert_eq!(vm.step(&chunk), None);
    assert_eq!(vm.ip, 4);
    assert!(matches!(&vm.stack[1], ValueType::STRING(s) if s == b"s"));
}

#[test]
fn literals_are_pushed() {
    let chunk = chunk_of(&[7, 8, 9], vec![]);
    let mut vm = init_vm();
    assert_eq!(vm.step(&chunk), None);
    assert_eq!(vm.step(&chunk), None);
    assert_eq!(vm.step(&chunk), None);
    assert_eq!(vm.ip, 3);
    assert!(matches!(vm.stack[0], ValueType::NIL));
    assert!(matches!(vm.stack[1], ValueType::BOOL(true)));
    assert!(matches!(vm.stack[2], ValueType::BOOL(false)));
}

#[test]
fn the_top_of_the_stack_is_the_right_operand() {
    let chunk = chunk_of(&[3, 5, 12, 14], vec![]);
    let mut vm = machine_with(vec![ValueType::INT(10), ValueType::INT(3)]);
    assert_eq!(vm.step(&chunk), None);
    assert!(matches!(vm.stack[..], [ValueType::INT(7)]));
    vm.stack = vec![ValueType::INT(20), ValueType::INT(6)];
    assert_eq!(vm.step(&chunk), None);
    assert!(matches!(vm.stack[..], [ValueType::INT(3)]));
    vm.stack = vec![ValueType::INT(1), ValueType::INT(2)];
    assert_eq!(vm.step(&chunk), None);
    assert!(matches!(vm.stack[..], [ValueType::BOOL(true)]));
    vm.stack = vec![ValueType::INT(2), ValueType::INT(1)];
    assert_eq!(vm.step(&chunk), None);
    assert!(matches!(vm.stack[..], [ValueType::BOOL(false)]));
}

#[test]
fn comparisons_order_two_integers() {
    let cases: Vec<(u8, i64, i64, bool)> = vec![
        (12, 1, 2, true),
        (12, 2, 2, false),
        (13, 3, 2, true),
        (13, 2, 2, false),
        (14, 2, 2, true),
        (14, 3, 2, false),
        (15, 2, 2, true),
        (15, 1, 2, false),
    ];
    for (op, l, r, expected) in cases {
        let chunk = chunk_of(&[op], vec![]);
        let mut vm = machine_with(vec![ValueType::INT(l), ValueType::INT(r)]);
        assert_eq!(vm.step(&chunk), None);
        match vm.stack[..] {
            [ValueType::BOOL(b)] => assert_eq!(b, expected),
            _ => panic!("no truth value"),
        }
    }
}

#[test]
fn every_instruction_changes_the_depth_by_its_effect() {
    let cases: Vec<(u8, i64)> = vec![
        (0, 1),
        (2, -1),
        (3, -1),
        (4, -1),
        (5, -1),
        (7, 1),
        (8, 1),
        (9, 1),
        (10, 0),
        (11, -1),
        (12, -1),
        (13, -1),
        (14, -1),
        (15, -1),
        (16, 0),
        (17, 0),
        (18, -1),
        (20, 1),
        (22, -1),
        (23, 0),
    ];
    for (op, effect) in cases {
        let chunk = chunk_of(
            &[op, 0, 6],
            vec![ConstantType::SYMBOL(b"x".to_vec())],
        );
        let mut vm = machine_with(vec![ValueType::INT(8), ValueType::INT(2)]);
        assert_eq!(vm.step(&chunk), None);
        assert_eq!(vm.stack.len() as i64, 2 + effect);
    }
    let chunk = chunk_of(&[19], vec![]);
    let mut vm = machine_with(vec![ValueType::SYMBOL(b"x".to_vec()), ValueType::INT(2)]);
    assert_eq!(vm.step(&chunk), None);
    assert_eq!(vm.stack.len(), 1);
    let chunk = chunk_of(&[6], vec![]);
    let mut vm = machine_with(vec![ValueType::INT(8), ValueType::INT(2)]);
    assert_eq!(vm.step(&chunk), Some(InterpretResult::Success));
    assert_eq!(vm.stack.len(), 1);
}

#[test]
fn not_pushes_whether_the_value_is_falsey() {
    let chunk = chunk_of(&[10, 10], vec![]);
    let mut vm = machine_with(vec![ValueType::NIL]);
    assert_eq!(vm.step(&chunk), None);
    assert!(matches!(vm.stack[..], [ValueType::BOOL(true)]));
    assert_eq!(vm.step(&chunk), None);
    assert!(matches!(vm.stack[..], [ValueType::BOOL(false)]));
}

#[test]
fn len_counts_bytes() {
    let chunk = chunk_of(&[16], vec![]);
    let mut vm = machine_with(vec![string("héllo")]);
    assert_eq!(vm.step(&chunk), None);
    assert!(matches!(vm.stack[..], [ValueType::INT(6)]));
}

#[test]
fn print_records_the_value_and_pushes_nil() {
    let chunk = chunk_of(&[17], vec![]);
    let mut vm = machine_with(vec![ValueType::INT(5)]);
    assert_eq!(vm.step(&chunk), None);
    assert!(matches!(vm.stack[..], [ValueType::NIL]));
    assert!(matches!(vm.output[..], [ValueType::INT(5)]));
}

#[test]
fn pop_drops_the_top() {
    let chunk = chunk_of(&[18], vec![]);
    let mut vm = machine_with(vec![ValueType::INT(5), ValueType::INT(6)]);
    assert_eq!(vm.step(&chunk), None);
    assert!(matches!(vm.stack[..], [ValueType::INT(5)]));
}

#[test]
fn def_binds_and_sym_looks_up() {
    let chunk = chunk_of(
        &[20, 0, 0, 1, 19, 21, 2],
        vec![
            ConstantType::SYMBOL(b"x".to_vec()),
            ConstantType::INT(7),
            ConstantType::SYMBOL(b"x".to_vec()),
        ],
    );
    let mut vm = init_vm();
    assert_eq!(vm.step(&chunk), None);
    assert!(matches!(&vm.stack[0], ValueType::SYMBOL(s) if s == b"x"));
    assert_eq!(vm.step(&chunk), None);
    assert_eq!(vm.step(&chunk), None);
    assert!(matches!(vm.stack[..], [ValueType::NIL]));
    assert_eq!(vm.step(&chunk), None);
    assert!(matches!(vm.stack[..], [ValueType::NIL, ValueType::INT(7)]));
}

#[test]
fn a_later_definition_takes_the_place_of_an_earlier_one() {
    let (_, vm) = run_source("(def x 1) (def y 2) (def x 3) (+ x y)");
    assert!(matches!(vm.result, Some(ValueType::INT(5))));
}

fn run_source(source: &str) -> (InterpretResult, VM) {
    let mut chunk = init_chunk();
    let mut vm = init_vm();
    let why = vm.interpret(source, &mut chunk);
    (why, vm)
}

#[test]
fn an_undefined_symbol_is_a_runtime_error() {
    let (why, vm) = run_source("(+ x 1)");
    assert_eq!(why, InterpretResult::RuntimeError);
    assert!(vm.stack.is_empty());
    assert_eq!(vm.ip, 0);
}

#[test]
fn def_of_something_that_is_no_symbol_is_a_runtime_error() {
    let chunk = chunk_of(&[19], vec![]);
    let mut vm = machine_with(vec![ValueType::INT(1), ValueType::INT(2)]);
    assert_eq!(vm.step(&chunk), Some(InterpretResult::RuntimeError));
    assert_eq!(vm.stack.len(), 2);
    assert_eq!(vm.ip, 0);
    assert!(vm.symbols.is_empty());
}

#[test]
fn an_operand_that_is_no_number_is_a_runtime_error() {
    assert_eq!(run_source("(+ 1 nil)").0, InterpretResult::RuntimeError);
    assert_eq!(run_source("(< \"a\" 1)").0, InterpretResult::RuntimeError);
    assert_eq!(run_source("(* true 2)").0, InterpretResult::RuntimeError);
}

#[test]
fn a_stack_that_holds_too_little_is_a_runtime_error() {
    for op in [2u8, 3, 4, 5, 6, 10, 11, 12, 13, 14, 15, 16, 17, 18, 19, 22] {
        let chunk = chunk_of(&[op, 0], vec![]);
        let mut vm = init_vm();
        assert_eq!(vm.step(&chunk), Some(InterpretResult::RuntimeError));
        assert_eq!(vm.ip, 0);
    }
    for op in [2u8, 3, 4, 5, 11, 12, 13, 14, 15, 19] {
        let chunk = chunk_of(&[op], vec![]);
        let mut vm = machine_with(vec![ValueType::INT(1)]);
        assert_eq!(vm.step(&chunk), Some(InterpretResult::RuntimeError));
        assert_eq!(vm.stack.len(), 1);
    }
}

#[test]
fn division_by_zero_and_overflow_are_runtime_errors() {
    assert_eq!(run_source("(/ 1 0)").0, InterpretResult::RuntimeError);
    assert_eq!(run_source("(+ 9223372036854775807 1)").0, InterpretResult::RuntimeError);
    assert_eq!(run_source("(* 9223372036854775807 2)").0, InterpretResult::RuntimeError);
}

#[test]
fn code_that_cannot_be_read_is_a_compile_error() {
    let mut vm = init_vm();
    assert_eq!(vm.step(&chunk_of(&[], vec![])), Some(InterpretResult::CompileError));
    assert_eq!(vm.step(&chunk_of(&[24], vec![])), Some(InterpretResult::CompileError));
    assert_eq!(vm.step(&chunk_of(&[1], vec![])), Some(InterpretResult::CompileError));
    assert_eq!(vm.step(&chunk_of(&[0], vec![])), Some(InterpretResult::CompileError));
    assert_eq!(vm.step(&chunk_of(&[0, 0], vec![])), Some(InterpretResult::CompileError));
    assert_eq!(vm.step(&chunk_of(&[23], vec![])), Some(InterpretResult::CompileError));
    let ints = || vec![ConstantType::INT(1)];
    assert_eq!(vm.step(&chunk_of(&[21, 0], ints())), Some(InterpretResult::CompileError));
    assert_eq!(vm.step(&chunk_of(&[20, 0], ints())), Some(InterpretResult::CompileError));
    vm.ip = 5;
    assert_eq!(vm.step(&chunk_of(&[7], vec![])), Some(InterpretResult::CompileError));
}

#[test]
fn a_source_that_does_not_compile_is_not_run() {
    let mut chunk = init_chunk();
    let mut vm = machine_with(vec![ValueType::INT(1)]);
    vm.ip = 3;
    assert_eq!(vm.interpret("(+ 1", &mut chunk), InterpretResult::CompileError);
    assert_eq!(vm.ip, 3);
    assert_eq!(vm.stack.len(), 1);
}

#[test]
fn interpret_starts_afresh() {
    let mut chunk = init_chunk();
    let mut vm = machine_with(vec![ValueType::INT(1), ValueType::INT(2)]);
    vm.ip = 3;
    assert_eq!(vm.interpret("(+ 20 22)", &mut chunk), InterpretResult::Success);
    assert!(vm.stack.is_empty());
    assert!(matches!(vm.result, Some(ValueType::INT(42))));
}

#[test]
fn an_empty_program_has_nothing_to_return() {
    assert_eq!(run_source("").0, InterpretResult::RuntimeError);
}

#[test]
fn jumps_set_the_position() {
    let chunk = chunk_of(&[23, 4, 7, 7, 22, 8, 22, 9, 7, 6], vec![]);
    let mut vm = machine_with(vec![ValueType::BOOL(false), ValueType::INT(0)]);
    assert_eq!(vm.step(&chunk), None);
    assert_eq!(vm.ip, 4);
    assert_eq!(vm.step(&chunk), None);
    assert_eq!(vm.ip, 6);
    assert_eq!(vm.stack.len(), 1);
    assert_eq!(vm.step(&chunk), None);
    assert_eq!(vm.ip, 9);
    assert!(vm.stack.is_empty());
}

#[test]
fn run_stops_at_a_jump_that_does_not_lead_forward() {
    let chunk = chunk_of(&[7, 18, 23, 0], vec![]);
    let mut vm = init_vm();
    assert_eq!(vm.run(&chunk), InterpretResult::CompileError);
    assert_eq!(vm.ip, 0);
    let chunk = chunk_of(&[23, 0], vec![]);
    let mut vm = init_vm();
    assert_eq!(vm.run(&chunk), InterpretResult::CompileError);
}

#[test]
fn run_goes_on_until_the_return() {
    let chunk = chunk_of(
        &[0, 0, 0, 1, 2, 6, 7],
        vec![ConstantType::INT(40), ConstantType::INT(2)],
    );
    let mut vm = init_vm();
    assert_eq!(vm.run(&chunk), InterpretResult::Success);
    assert_eq!(vm.ip, 6);
    assert!(matches!(vm.result, Some(ValueType::INT(42))));
    assert!(vm.stack.is_empty());
}

#[test]
fn a_float_constant_suspends_the_machine() {
    let chunk = chunk_of(&[0, 0, 6], vec![ConstantType::FLOAT(b"1.5".to_vec())]);
    let mut vm = init_vm();
    assert_eq!(vm.run(&chunk), InterpretResult::Suspended);
    assert_eq!(vm.ip, 0);
    assert!(vm.stack.is_empty());
    assert!(vm.suspended(&chunk));
    match vm.float_task(&chunk) {
        Some(FloatTask::Literal(digits)) => assert_eq!(digits, b"1.5".to_vec()),
        _ => panic!("no literal"),
    }
    assert_eq!(vm.resume(&chunk, Answer::Number(1.5f64.to_bits())), None);
    assert_eq!(vm.ip, 2);
    assert_eq!(vm.run(&chunk), InterpretResult::Success);
    match vm.result {
        Some(ValueType::FLOAT(bits)) => assert_eq!(f64::from_bits(bits), 1.5),
        _ => panic!("no float"),
    }
}

#[test]
fn arithmetic_with_a_float_suspends_the_machine() {
    let chunk = chunk_of(&[3, 6], vec![]);
    let mut vm = machine_with(vec![ValueType::INT(5), ValueType::FLOAT(0.5f64.to_bits())]);
    assert_eq!(vm.step(&chunk), Some(InterpretResult::Suspended));
    assert_eq!(vm.stack.len(), 2);
    match vm.float_task(&chunk) {
        Some(FloatTask::Binary(Opcode::OPSUBTRACT, ValueType::INT(5), ValueType::FLOAT(bits))) => {
            assert_eq!(f64::from_bits(bits), 0.5)
        }
        _ => panic!("no subtraction"),
    }
    assert_eq!(vm.resume(&chunk, Answer::Number(4.5f64.to_bits())), None);
    assert_eq!(vm.ip, 1);
    assert!(matches!(vm.stack[..], [ValueType::FLOAT(_)]));
}

#[test]
fn a_comparison_with_a_float_is_answered_with_a_truth_value() {
    let chunk = chunk_of(&[12], vec![]);
    let mut vm = machine_with(vec![ValueType::FLOAT(0), ValueType::INT(1)]);
    assert_eq!(vm.step(&chunk), Some(InterpretResult::Suspended));
    assert_eq!(
        vm.resume(&chunk, Answer::Number(0)),
        Some(InterpretResult::RuntimeError)
    );
    assert_eq!(vm.stack.len(), 2);
    assert_eq!(vm.resume(&chunk, Answer::Truth(true)), None);
    assert!(matches!(vm.stack[..], [ValueType::BOOL(true)]));
}

#[test]
fn an_answer_that_nothing_asked_for_is_an_error() {
    let chunk = chunk_of(&[7], vec![]);
    let mut vm = init_vm();
    assert!(!vm.suspended(&chunk));
    assert!(vm.float_task(&chunk).is_none());
    assert_eq!(
        vm.resume(&chunk, Answer::Truth(true)),
        Some(InterpretResult::RuntimeError)
    );
    assert!(vm.stack.is_empty());
    assert_eq!(vm.ip, 0);
}

#[test]
fn arithmetic_answered_with_a_truth_value_is_an_error() {
    let chunk = chunk_of(&[2], vec![]);
    let mut vm = machine_with(vec![ValueType::FLOAT(0), ValueType::FLOAT(0)]);
    assert_eq!(
        vm.resume(&chunk, Answer::Truth(true)),
        Some(InterpretResult::RuntimeError)
    );
    assert_eq!(vm.stack.len(), 2);
}

#[test]
fn two_floats_are_compared_by_the_host() {
    let chunk = chunk_of(&[11], vec![]);
    let mut vm = machine_with(vec![ValueType::FLOAT(1), ValueType::FLOAT(1)]);
    assert_eq!(vm.step(&chunk), Some(InterpretResult::Suspended));
    assert!(matches!(
        vm.float_task(&chunk),
        Some(FloatTask::Binary(Opcode::OPEQUAL, ValueType::FLOAT(1), ValueType::FLOAT(1)))
    ));
}

#[test]
fn a_copy_of_a_value_holds_the_same() {
    let value = string("abc");
    assert_eq!(values_equal(&value, &value.copy()), Some(true));
    assert!(matches!(ValueType::INT(3).copy(), ValueType::INT(3)));
    assert!(matches!(ValueType::NIL.copy(), ValueType::NIL));
}

#[test]
fn print_in_a_program_records_what_it_prints() {
    let (why, vm) = run_source("(print 1) (print \"two\") 3");
    assert_eq!(why, InterpretResult::Success);
    assert_eq!(vm.output.len(), 2);
    assert!(matches!(vm.output[0], ValueType::INT(1)));
    assert!(matches!(&vm.output[1], ValueType::STRING(s) if s == b"two"));
    assert!(matches!(vm.result, Some(ValueType::INT(3))));
}

#[test]
fn zero_and_the_empty_string_are_truthy() {
    assert!(matches!(run_source("(if 0 1 2)").1.result, Some(ValueType::INT(1))));
    assert!(matches!(run_source("(if \"\" 1 2)").1.result, Some(ValueType::INT(1))));
    assert!(matches!(run_source("(not nil)").1.result, Some(ValueType::BOOL(true))));
    assert!(matches!(run_source("(not 0)").1.result, Some(ValueType::BOOL(false))));
}

#[test]
fn strings_are_equal_if_they_hold_the_same_bytes() {
    assert!(matches!(run_source("(= \"a\" \"a\")").1.result, Some(ValueType::BOOL(true))));
    assert!(matches!(run_source("(= \"a\" \"b\")").1.result, Some(ValueType::BOOL(false))));
    assert!(matches!(run_source("(= nil nil)").1.result, Some(ValueType::BOOL(true))));
    assert!(matches!(run_source("(= nil false)").1.result, Some(ValueType::BOOL(false))));
}

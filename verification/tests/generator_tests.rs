use sophie::chunk::{init_chunk, Chunk};
use sophie::compiler::{compile, init_generator, translate, Generator};
use sophie::parser::parse;
use sophie::scanner::{Token, TokenType};
use sophie::value::ConstantType;

fn compiled(source: &str) -> (bool, Chunk) {
    let mut chunk = init_chunk();
    let ok = compile(source, &mut chunk);
    (ok, chunk)
}

fn token(typ: TokenType, line: u16, start: usize, length: usize) -> Token {
    Token { typ, line, start, length, error: None }
}

fn jumps_and_constants_are_sound(chunk: &Chunk) {
    let mut at = 0;
    while at < chunk.code.len() {
        let op = chunk.code[at];
        assert!(op < 24);
        if op == 0 || op == 20 || op == 21 {
            assert!((chunk.code[at + 1] as usize) < chunk.constants.values.len());
            at += 2;
        } else if op == 22 || op == 23 {
            assert!((chunk.code[at + 1] as usize) < chunk.code.len());
            assert!(chunk.code[at + 1] as usize > at);
            at += 2;
        } else {
            at += 1;
        }
    }
    assert_eq!(at, chunk.code.len());
}

#[test]
fn an_empty_source_is_a_return() {
    let (ok, chunk) = compiled("");
    assert!(ok);
    assert_eq!(chunk.code, vec![6]);
    assert_eq!(chunk.lines, vec![0]);
}

#[test]
fn literals_give_their_instructions() {
    let (ok, chunk) = compiled("nil true false");
    assert!(ok);
    assert_eq!(chunk.code, vec![7, 18, 8, 18, 9, 6]);
    assert_eq!(chunk.lines, vec![1, 0, 1, 0, 1, 0]);
}

#[test]
fn operands_come_before_their_operator() {
    let (ok, chunk) = compiled("(* 4 (- 9 2))");
    assert!(ok);
    assert_eq!(chunk.code, vec![0, 0, 0, 1, 0, 2, 3, 4, 6]);
    assert!(matches!(chunk.constants.values[0], ConstantType::INT(4)));
    assert!(matches!(chunk.constants.values[1], ConstantType::INT(9)));
    assert!(matches!(chunk.constants.values[2], ConstantType::INT(2)));
}

#[test]
fn every_operator_has_its_instruction() {
    let (ok, chunk) = compiled("+ - * / not = < > <= >= len print def");
    assert!(ok);
    assert_eq!(
        chunk.code,
        vec![
            2, 18, 3, 18, 4, 18, 5, 18, 10, 18, 11, 18, 12, 18, 13, 18, 14, 18, 15, 18, 16, 18,
            17, 18, 19, 6
        ]
    );
}

#[test]
fn other_tokens_give_no_code() {
    let (ok, chunk) = compiled("[ ] { } , . ; ! != == :key and or let");
    assert!(ok);
    assert_eq!(chunk.code, vec![18, 18, 18, 18, 18, 18, 18, 18, 18, 18, 18, 18, 18, 6]);
    assert!(chunk.constants.values.is_empty());
}

#[test]
fn a_string_constant_is_without_its_quotes() {
    let (ok, chunk) = compiled("\"hello\"");
    assert!(ok);
    assert_eq!(chunk.code, vec![0, 0, 6]);
    assert!(matches!(&chunk.constants.values[0], ConstantType::STRING(s) if s == b"hello"));
}

#[test]
fn an_empty_string_is_an_empty_constant() {
    let (ok, chunk) = compiled("\"\"");
    assert!(ok);
    assert!(matches!(&chunk.constants.values[0], ConstantType::STRING(s) if s.is_empty()));
}

#[test]
fn a_float_constant_holds_its_digits() {
    let (ok, chunk) = compiled("3.25");
    assert!(ok);
    assert_eq!(chunk.code, vec![0, 0, 6]);
    assert!(matches!(&chunk.constants.values[0], ConstantType::FLOAT(d) if d == b"3.25"));
}

#[test]
fn an_identifier_is_looked_up() {
    let (ok, chunk) = compiled("foo");
    assert!(ok);
    assert_eq!(chunk.code, vec![21, 0, 6]);
    assert!(matches!(&chunk.constants.values[0], ConstantType::SYMBOL(s) if s == b"foo"));
}

#[test]
fn a_def_pushes_the_symbol_then_the_value_then_defines() {
    let (ok, chunk) = compiled("(def x 7)");
    assert!(ok);
    assert_eq!(chunk.code, vec![20, 0, 0, 1, 19, 6]);
    assert!(matches!(&chunk.constants.values[0], ConstantType::SYMBOL(s) if s == b"x"));
    assert!(matches!(chunk.constants.values[1], ConstantType::INT(7)));
}

#[test]
fn an_if_with_else_jumps_over_each_branch() {
    let (ok, chunk) = compiled("(if true 1 2)");
    assert!(ok);
    assert_eq!(chunk.code, vec![8, 22, 7, 0, 0, 23, 9, 0, 1, 6]);
    assert_eq!(chunk.lines, vec![1, 1, 1, 1, 1, 1, 1, 1, 1, 0]);
    jumps_and_constants_are_sound(&chunk);
}

#[test]
fn nested_ifs_are_patched_each_at_its_place() {
    let (ok, chunk) = compiled("(if (if true false) (if nil 1 2) (if false 3))");
    assert!(ok);
    jumps_and_constants_are_sound(&chunk);
    assert_eq!(chunk.code[chunk.code.len() - 1], 6);
    assert_eq!(chunk.code.len(), chunk.lines.len());
}

#[test]
fn lines_follow_the_tokens() {
    let (ok, chunk) = compiled("(+ 1\n   2)\n(if nil\n 3)");
    assert!(ok);
    assert_eq!(chunk.code, vec![0, 0, 0, 1, 2, 18, 7, 22, 13, 0, 2, 23, 14, 7, 6]);
    assert_eq!(chunk.lines, vec![1, 1, 2, 2, 1, 0, 3, 3, 3, 4, 4, 3, 3, 3, 0]);
}

#[test]
fn code_is_added_to_what_the_chunk_holds() {
    let mut chunk = init_chunk();
    chunk.add_constant(ConstantType::INT(9));
    chunk.write_chunk(7, 5);
    assert!(compile("(if true 1)", &mut chunk));
    assert_eq!(chunk.code, vec![7, 8, 22, 8, 0, 1, 23, 9, 7, 6]);
    jumps_and_constants_are_sound(&chunk);
}

#[test]
fn an_empty_list_is_an_error_of_the_generator() {
    let (ok, chunk) = compiled("()");
    assert!(!ok);
    assert_eq!(chunk.code, vec![6]);
}

#[test]
fn an_if_without_branch_is_an_error() {
    assert!(!compiled("(if true)").0);
    assert!(!compiled("(if)").0);
    assert!(!compiled("(if a b c d)").0);
    assert!(compiled("(if a b)").0);
    assert!(compiled("(if a b c)").0);
}

#[test]
fn a_def_takes_a_name_and_a_value() {
    assert!(!compiled("(def x)").0);
    assert!(!compiled("(def)").0);
    assert!(!compiled("(def 1 2)").0);
    assert!(!compiled("(def x 1 2)").0);
    assert!(compiled("(def x 1)").0);
}

#[test]
fn an_integer_that_is_too_large_is_an_error() {
    let (ok, chunk) = compiled("9223372036854775807");
    assert!(ok);
    assert!(matches!(chunk.constants.values[0], ConstantType::INT(9223372036854775807)));
    let (ok, chunk) = compiled("9223372036854775808");
    assert!(!ok);
    assert!(chunk.constants.values.is_empty());
    assert_eq!(chunk.code, vec![6]);
}

#[test]
fn leading_zeros_do_not_change_an_integer() {
    let (ok, chunk) = compiled("000123");
    assert!(ok);
    assert!(matches!(chunk.constants.values[0], ConstantType::INT(123)));
}

#[test]
fn the_pool_holds_256_constants_and_no_more() {
    let mut source = String::new();
    for i in 0..256 {
        source.push_str(&format!("{} ", i));
    }
    let (ok, chunk) = compiled(&source);
    assert!(ok);
    assert_eq!(chunk.constants.values.len(), 256);
    source.push_str("256");
    let translation = {
        let mut chunk = init_chunk();
        let done = translate(&source, &mut chunk);
        assert_eq!(chunk.constants.values.len(), 256);
        done
    };
    assert!(!translation.ok);
    assert_eq!(translation.diagnostics.len(), 1);
    assert_eq!(translation.diagnostics[0].message, "Too many constants in one chunk.");
}

#[test]
fn a_jump_beyond_255_is_an_error() {
    let mut source = String::from("(if true (print");
    for _ in 0..130 {
        source.push_str(" 1");
    }
    source.push_str(") 2)");
    let mut chunk = init_chunk();
    let done = translate(&source, &mut chunk);
    assert!(!done.ok);
    assert_eq!(done.diagnostics.len(), 1);
    assert_eq!(done.diagnostics[0].message, "Too much code to jump over.");
    assert_eq!(chunk.code[chunk.code.len() - 1], 6);
    assert_eq!(chunk.code.len(), chunk.lines.len());
    assert_eq!(chunk.code[2], 0);
}

#[test]
fn a_jump_to_255_is_the_farthest() {
    let mut source = String::from("(if true (print");
    for _ in 0..124 {
        source.push_str(" 1");
    }
    source.push_str("))");
    let (ok, chunk) = compiled(&source);
    assert!(ok);
    assert_eq!(chunk.code[1], 22);
    assert_eq!(chunk.code[2], 254);
    assert_eq!(chunk.code[252], 23);
    assert_eq!(chunk.code[253], 255);
    assert_eq!(chunk.code[254], 7);
    assert_eq!(chunk.code[255], 6);
    jumps_and_constants_are_sound(&chunk);
}

#[test]
fn an_operator_on_two_operands_takes_exactly_two() {
    assert!(!compiled("(+ 1 2 3)").0);
    assert!(!compiled("(- 1)").0);
    assert!(!compiled("(>=)").0);
    assert!(compiled("(>= 1 2)").0);
    assert!(compiled("(not 1)").0);
    assert!(compiled("(print 1 2 3)").0);
    let mut chunk = init_chunk();
    let done = translate("(* 1 2 3)", &mut chunk);
    assert_eq!(done.diagnostics.len(), 1);
    assert_eq!(done.diagnostics[0].message, "The operator takes two operands.");
    assert_eq!(chunk.code, vec![6]);
}

#[test]
fn a_source_with_an_error_of_the_parser_does_not_compile() {
    assert!(!compiled("(+ 1 2").0);
    assert!(!compiled("(+ 1 2))").0);
    assert!(!compiled("(+ 1 @)").0);
    assert!(!compiled("\"open").0);
}

#[test]
fn the_errors_of_a_translation_are_reported_in_order() {
    let mut chunk = init_chunk();
    let done = translate("@ ()", &mut chunk);
    assert!(!done.ok);
    assert_eq!(done.diagnostics.len(), 2);
    assert_eq!(done.diagnostics[0].message, "Unexpected character.");
    assert_eq!(done.diagnostics[1].message, "An empty list is no expression.");
}

#[test]
fn a_token_outside_the_source_is_an_error() {
    let mut generator: Generator = init_generator();
    let mut chunk = init_chunk();
    generator.emit_token(&mut chunk, &token(TokenType::INT, 1, 3, 4), b"12345");
    assert!(generator.had_error);
    assert!(chunk.code.is_empty());
    generator.emit_token(&mut chunk, &token(TokenType::STRING, 1, 0, 1), b"\"");
    assert!(chunk.code.is_empty());
}

#[test]
fn emitting_bytes_records_the_line_of_the_token() {
    let mut generator = init_generator();
    let mut chunk = init_chunk();
    let t = token(TokenType::PLUS, 12, 0, 1);
    generator.emit_byte(&mut chunk, &t, 2);
    generator.emit_bytes(&mut chunk, &t, 0, 5);
    generator.emit_pop(&mut chunk, &t);
    generator.emit_return(&mut chunk, &t);
    assert_eq!(chunk.code, vec![2, 0, 5, 18, 6]);
    assert_eq!(chunk.lines, vec![12, 12, 12, 12, 12]);
    assert!(!generator.had_error);
}

#[test]
fn the_generator_works_on_a_tree() {
    let source = "(len \"ab\")";
    let (ast, parser) = parse(source);
    assert!(!parser.had_error);
    let mut generator = init_generator();
    let mut chunk = init_chunk();
    generator.generate(&ast, &mut chunk, source.as_bytes());
    assert!(!generator.had_error);
    assert_eq!(chunk.code, vec![0, 0, 16, 6]);
}

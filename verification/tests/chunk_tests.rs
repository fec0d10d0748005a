use sophie::chunk::{init_chunk, Opcode};
use sophie::debug::{disassemble_chunk, disassemble_instruction, opcode_name};
use sophie::value::{init_values, ConstantType};

#[test]
fn a_new_chunk_is_empty() {
    let chunk = init_chunk();
    assert!(chunk.code.is_empty());
    assert!(chunk.lines.is_empty());
    assert!(chunk.constants.values.is_empty());
}

#[test]
fn a_byte_is_written_with_its_line() {
    let mut chunk = init_chunk();
    chunk.write_chunk(6, 3);
    chunk.write_chunk(7, 4);
    assert_eq!(chunk.code, vec![6, 7]);
    assert_eq!(chunk.lines, vec![3, 4]);
}

#[test]
fn a_constant_gets_the_next_index() {
    let mut chunk = init_chunk();
    assert_eq!(chunk.add_constant(ConstantType::INT(5)), 0);
    assert_eq!(chunk.add_constant(ConstantType::STRING(b"s".to_vec())), 1);
    assert!(matches!(chunk.constants.values[0], ConstantType::INT(5)));
    assert!(matches!(&chunk.constants.values[1], ConstantType::STRING(s) if s == b"s"));
    assert!(chunk.code.is_empty());
}

#[test]
fn values_are_written_in_order() {
    let mut values = init_values();
    assert_eq!(values.write_values(ConstantType::INT(1)), 0);
    assert_eq!(values.write_values(ConstantType::INT(2)), 1);
    assert_eq!(values.write_values(ConstantType::SYMBOL(b"x".to_vec())), 2);
    assert_eq!(values.values.len(), 3);
}

#[test]
fn instructions_have_their_numbers() {
    assert_eq!(Opcode::OPCONSTANT.to_u8(), 0);
    assert_eq!(Opcode::OPNEGATE.to_u8(), 1);
    assert_eq!(Opcode::OPADD.to_u8(), 2);
    assert_eq!(Opcode::OPSUBTRACT.to_u8(), 3);
    assert_eq!(Opcode::OPMULTIPLY.to_u8(), 4);
    assert_eq!(Opcode::OPDIVIDE.to_u8(), 5);
    assert_eq!(Opcode::OPRETURN.to_u8(), 6);
    assert_eq!(Opcode::OPNIL.to_u8(), 7);
    assert_eq!(Opcode::OPTRUE.to_u8(), 8);
    assert_eq!(Opcode::OPFALSE.to_u8(), 9);
    assert_eq!(Opcode::OPNOT.to_u8(), 10);
    assert_eq!(Opcode::OPEQUAL.to_u8(), 11);
    assert_eq!(Opcode::OPLT.to_u8(), 12);
    assert_eq!(Opcode::OPGT.to_u8(), 13);
    assert_eq!(Opcode::OPLTE.to_u8(), 14);
    assert_eq!(Opcode::OPGTE.to_u8(), 15);
    assert_eq!(Opcode::OPLEN.to_u8(), 16);
    assert_eq!(Opcode::OPPRINT.to_u8(), 17);
    assert_eq!(Opcode::OPPOP.to_u8(), 18);
    assert_eq!(Opcode::OPDEF.to_u8(), 19);
    assert_eq!(Opcode::OPDEFSYM.to_u8(), 20);
    assert_eq!(Opcode::OPSYM.to_u8(), 21);
    assert_eq!(Opcode::OPJMPIFFALSE.to_u8(), 22);
    assert_eq!(Opcode::OPJMP.to_u8(), 23);
}

#[test]
fn a_byte_stands_for_the_instruction_with_its_number() {
    for byte in 0..24u8 {
        assert_eq!(Opcode::from_u8(byte).unwrap().to_u8(), byte);
    }
    assert_eq!(Opcode::from_u8(24), None);
    assert_eq!(Opcode::from_u8(255), None);
}

#[test]
fn five_instructions_take_an_operand() {
    let mut wide = Vec::new();
    for byte in 0..24u8 {
        if Opcode::from_u8(byte).unwrap().operand_bytes() == 1 {
            wide.push(byte);
        }
    }
    assert_eq!(wide, vec![0, 20, 21, 22, 23]);
}

#[test]
fn a_listing_shows_each_instruction_once() {
    let mut chunk = init_chunk();
    chunk.add_constant(ConstantType::INT(1));
    chunk.write_chunk(0, 1);
    chunk.write_chunk(0, 1);
    chunk.write_chunk(7, 1);
    chunk.write_chunk(2, 2);
    chunk.write_chunk(6, 0);
    let listing = disassemble_chunk(&chunk);
    assert_eq!(listing.len(), 4);
    assert_eq!(listing[0].offset, 0);
    assert_eq!(listing[0].op, Some(Opcode::OPCONSTANT));
    assert_eq!(listing[0].operand, Some(0));
    assert_eq!(listing[0].next, 2);
    assert!(!listing[0].same_line);
    assert_eq!(listing[1].offset, 2);
    assert_eq!(listing[1].op, Some(Opcode::OPNIL));
    assert_eq!(listing[1].operand, None);
    assert!(listing[1].same_line);
    assert_eq!(listing[2].line, 2);
    assert!(!listing[2].same_line);
    assert_eq!(listing[3].op, Some(Opcode::OPRETURN));
    assert_eq!(listing[3].next, 5);
}

#[test]
fn a_byte_that_is_no_instruction_is_shown_as_unknown() {
    let mut chunk = init_chunk();
    chunk.write_chunk(200, 1);
    chunk.write_chunk(22, 1);
    let first = disassemble_instruction(&chunk, 0);
    assert_eq!(first.op, None);
    assert_eq!(first.next, 1);
    assert_eq!(opcode_name(first.op), "UNKNOWN OPCODE");
    let second = disassemble_instruction(&chunk, 1);
    assert_eq!(second.op, Some(Opcode::OPJMPIFFALSE));
    assert_eq!(second.operand, None);
    assert_eq!(second.next, 2);
}

#[test]
fn instructions_are_named_in_a_listing() {
    assert_eq!(opcode_name(Some(Opcode::OPRETURN)), "OP_RETURN");
    assert_eq!(opcode_name(Some(Opcode::OPCONSTANT)), "OP_CONSTANT");
    assert_eq!(opcode_name(Some(Opcode::OPJMPIFFALSE)), "OP_JMPIFFALSE");
    assert_eq!(opcode_name(Some(Opcode::OPDEFSYM)), "OP_DEFSYM");
}

use rslox::chunk::{Chunk, Fault, Instruction, OpCode};

fn texts(chunk: &Chunk<f64>) -> Vec<String> {
    chunk.constants.iter().map(|v| v.to_string()).collect()
}

#[test]
fn add_constant_returns_increasing_indices() {
    let mut chunk: Chunk<f64> = Chunk::new();
    assert_eq!(chunk.add_constant(1.0), 0);
    assert_eq!(chunk.add_constant(1.0), 1);
    assert_eq!(chunk.add_constant(2.5), 2);
    assert_eq!(chunk.constants, vec![1.0, 1.0, 2.5]);
}

#[test]
fn write_chunk_records_byte_and_line() {
    let mut chunk: Chunk<f64> = Chunk::new();
    chunk.write_chunk(OpCode::RETURN.to_byte(), 7);
    chunk.write_chunk(3, 9);
    assert_eq!(chunk.code, vec![0, 3]);
    assert_eq!(chunk.line(0), 7);
    assert_eq!(chunk.line(1), 9);
}

#[test]
fn opcode_encoding_round_trips() {
    for b in 0u8..7 {
        assert_eq!(OpCode::from_byte(b).unwrap().to_byte(), b);
    }
    assert_eq!(OpCode::from_byte(7), None);
    assert_eq!(OpCode::from_byte(255), None);
    assert_eq!(OpCode::DIVIDE.to_byte(), 6);
}

#[test]
fn constant_disassembles_with_index_and_value() {
    let mut chunk: Chunk<f64> = Chunk::new();
    let constant = chunk.add_constant(1.2);
    chunk.write_chunk(OpCode::CONSTANT.to_byte(), 123);
    chunk.write_chunk(constant as u8, 123);
    let (line, next) = chunk.disassemble_instruction(0, &texts(&chunk)).unwrap();
    assert_eq!(line, "0000  123 OP_CONSTANT         0 '1.2'\n");
    assert_eq!(next, 2);
    assert!(line.contains("1.2"));
}

#[test]
fn same_line_prints_continuation_marker() {
    let mut chunk: Chunk<f64> = Chunk::new();
    chunk.write_chunk(OpCode::NEGATE.to_byte(), 1);
    chunk.write_chunk(OpCode::RETURN.to_byte(), 1);
    let t = texts(&chunk);
    assert_eq!(chunk.disassemble_instruction(0, &t).unwrap(), ("0000    1 OP_NEGATE\n".to_string(), 1));
    assert_eq!(chunk.disassemble_instruction(1, &t).unwrap(), ("0001    | OP_RETURN\n".to_string(), 2));
}

#[test]
fn new_line_prints_its_number() {
    let mut chunk: Chunk<f64> = Chunk::new();
    chunk.write_chunk(OpCode::NEGATE.to_byte(), 1);
    chunk.write_chunk(OpCode::RETURN.to_byte(), 2);
    let t = texts(&chunk);
    assert_eq!(chunk.disassemble_instruction(1, &t).unwrap().0, "0001    2 OP_RETURN\n");
}

#[test]
fn whole_chunk_disassembly() {
    let mut chunk: Chunk<f64> = Chunk::new();
    let c = chunk.add_constant(1.2);
    chunk.write_chunk(OpCode::CONSTANT.to_byte(), 123);
    chunk.write_chunk(c as u8, 123);
    chunk.write_chunk(OpCode::RETURN.to_byte(), 123);
    let text = chunk.disassemble_chunk("test chunk", &texts(&chunk)).unwrap();
    assert_eq!(
        text,
        "== test chunk ==\n0000  123 OP_CONSTANT         0 '1.2'\n0002    | OP_RETURN\n"
    );
}

#[test]
fn decode_faults() {
    let mut chunk: Chunk<f64> = Chunk::new();
    chunk.write_chunk(9, 1);
    assert_eq!(chunk.decode(0), Err(Fault::InvalidOpcode(9)));
    assert_eq!(chunk.decode(1), Err(Fault::EndOfCode));
    let t = texts(&chunk);
    assert_eq!(chunk.disassemble_instruction(0, &t), Err(Fault::InvalidOpcode(9)));
    assert_eq!(chunk.disassemble_chunk("bad", &t), Err(Fault::InvalidOpcode(9)));

    let mut chunk: Chunk<f64> = Chunk::new();
    chunk.write_chunk(OpCode::CONSTANT.to_byte(), 1);
    assert_eq!(chunk.decode(0), Err(Fault::MissingOperand));
    chunk.write_chunk(4, 1);
    assert_eq!(chunk.decode(0), Err(Fault::BadConstant(4)));
    chunk.add_constant(0.5);
    assert_eq!(chunk.decode(0), Err(Fault::BadConstant(4)));
}

#[test]
fn decode_instructions() {
    let mut chunk: Chunk<f64> = Chunk::new();
    chunk.add_constant(0.5);
    chunk.write_chunk(OpCode::CONSTANT.to_byte(), 1);
    chunk.write_chunk(0, 1);
    chunk.write_chunk(OpCode::ADD.to_byte(), 1);
    assert_eq!(chunk.decode(0), Ok(Instruction::Constant(0)));
    assert_eq!(chunk.decode(2), Ok(Instruction::Simple(OpCode::ADD)));
}

#[test]
fn wide_numbers_are_not_truncated() {
    let mut chunk: Chunk<f64> = Chunk::new();
    for _ in 0..10001 {
        chunk.write_chunk(OpCode::RETURN.to_byte(), 12345);
    }
    let t = texts(&chunk);
    assert_eq!(chunk.disassemble_instruction(0, &t).unwrap().0, "0000 12345 OP_RETURN\n");
    assert_eq!(chunk.disassemble_instruction(10000, &t).unwrap().0, "10000    | OP_RETURN\n");
}

#[test]
fn line_table_matches_code_until_code_is_changed_directly() {
    let mut chunk: Chunk<f64> = Chunk::new();
    assert!(chunk.lines_match_code());
    chunk.write_chunk(OpCode::RETURN.to_byte(), 1);
    chunk.add_constant(1.0);
    assert!(chunk.lines_match_code());
    chunk.code.push(0);
    assert!(!chunk.lines_match_code());
}

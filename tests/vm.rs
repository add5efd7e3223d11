use rslox::chunk::{Chunk, Fault, OpCode};
use rslox::compiler::{compile, interpret};
use rslox::vm::{BinaryOp, InterpretError, Step, VM};

fn negate(v: f64) -> f64 {
    -v
}

fn binary(op: BinaryOp, a: f64, b: f64) -> f64 {
    match op {
        BinaryOp::ADD => a + b,
        BinaryOp::SUBTRACT => a - b,
        BinaryOp::MULTIPLY => a * b,
        BinaryOp::DIVIDE => a / b,
    }
}

fn push_constant(chunk: &mut Chunk<f64>, v: f64, line: usize) {
    let i = chunk.add_constant(v);
    chunk.write_chunk(OpCode::CONSTANT.to_byte(), line);
    chunk.write_chunk(i as u8, line);
}

#[test]
fn arithmetic_expression_end_to_end() {
    let mut chunk: Chunk<f64> = Chunk::new();
    push_constant(&mut chunk, 1.2, 123);
    push_constant(&mut chunk, 3.4, 123);
    chunk.write_chunk(OpCode::ADD.to_byte(), 123);
    push_constant(&mut chunk, 5.6, 123);
    chunk.write_chunk(OpCode::DIVIDE.to_byte(), 123);
    chunk.write_chunk(OpCode::NEGATE.to_byte(), 123);
    chunk.write_chunk(OpCode::RETURN.to_byte(), 123);
    let mut vm = VM::new(chunk);
    let result = vm.run(negate, binary).unwrap();
    assert_eq!(result, -((1.2 + 3.4) / 5.6));
    assert!(result.to_string().starts_with("-0.821428"));
    assert!(vm.stack().is_empty());
}

#[test]
fn constant_pushes_then_return_yield_last_constant() {
    let mut chunk: Chunk<f64> = Chunk::new();
    push_constant(&mut chunk, 1.0, 1);
    push_constant(&mut chunk, 2.0, 1);
    push_constant(&mut chunk, 3.5, 2);
    chunk.write_chunk(OpCode::RETURN.to_byte(), 2);
    let mut vm = VM::new(chunk);
    assert_eq!(vm.run(negate, binary), Ok(3.5));
    assert_eq!(vm.stack(), &vec![1.0, 2.0]);
}

#[test]
fn subtraction_keeps_operand_order() {
    let mut chunk: Chunk<f64> = Chunk::new();
    push_constant(&mut chunk, 10.0, 1);
    push_constant(&mut chunk, 4.0, 1);
    chunk.write_chunk(OpCode::SUBTRACT.to_byte(), 1);
    chunk.write_chunk(OpCode::RETURN.to_byte(), 1);
    let mut vm = VM::new(chunk);
    assert_eq!(vm.step(), Ok(Step::Pushed));
    assert_eq!(vm.step(), Ok(Step::Pushed));
    assert_eq!(vm.ip(), 4);
    assert_eq!(vm.step(), Ok(Step::Binary(BinaryOp::SUBTRACT, 10.0, 4.0)));
    vm.push(6.0);
    assert_eq!(vm.step(), Ok(Step::Return(6.0)));
}

#[test]
fn division_by_zero_is_not_an_error() {
    let mut chunk: Chunk<f64> = Chunk::new();
    push_constant(&mut chunk, 1.0, 1);
    push_constant(&mut chunk, 0.0, 1);
    chunk.write_chunk(OpCode::DIVIDE.to_byte(), 1);
    chunk.write_chunk(OpCode::RETURN.to_byte(), 1);
    let mut vm = VM::new(chunk);
    assert_eq!(vm.run(negate, binary), Ok(f64::INFINITY));
}

#[test]
fn faults_leave_the_machine_unchanged() {
    let mut chunk: Chunk<f64> = Chunk::new();
    chunk.write_chunk(OpCode::NEGATE.to_byte(), 1);
    let mut vm = VM::new(chunk);
    assert_eq!(vm.step(), Err(Fault::StackUnderflow));
    assert_eq!(vm.ip(), 0);

    let mut chunk: Chunk<f64> = Chunk::new();
    push_constant(&mut chunk, 1.0, 1);
    chunk.write_chunk(OpCode::MULTIPLY.to_byte(), 1);
    let mut vm = VM::new(chunk);
    assert_eq!(vm.run(negate, binary), Err(Fault::StackUnderflow));
    assert_eq!(vm.ip(), 2);
    assert_eq!(vm.stack(), &vec![1.0]);

    let mut chunk: Chunk<f64> = Chunk::new();
    push_constant(&mut chunk, 1.0, 1);
    let mut vm = VM::new(chunk);
    assert_eq!(vm.run(negate, binary), Err(Fault::EndOfCode));

    let mut chunk: Chunk<f64> = Chunk::new();
    chunk.write_chunk(OpCode::RETURN.to_byte(), 1);
    let mut vm = VM::new(chunk);
    assert_eq!(vm.run(negate, binary), Err(Fault::StackUnderflow));
}

#[test]
fn compile_lists_tokens() {
    let listing = compile("print 1.5;\nvar x = \"s\";".to_string()).unwrap();
    assert_eq!(
        listing,
        "   1 PRINT 'print'\n   | NUMBER '1.5'\n   | SEMICOLON ';'\n   2 VAR 'var'\n   | IDENTIFIER 'x'\n   | EQUAL '='\n   | STRING '\"s\"'\n   | SEMICOLON ';'\n   | EOF ''\n"
    );
}

#[test]
fn compile_stops_at_the_first_error() {
    let e = compile("1 +\n#".to_string()).err().unwrap();
    assert_eq!(e.message, "Unexpected character.");
    assert_eq!(e.line, 2);
}

#[test]
fn interpret_maps_scan_errors_to_compile_error() {
    assert_eq!(interpret("\"open".to_string()), Err(InterpretError::COMPILE_ERROR));
    assert_eq!(interpret("".to_string()), Ok("   1 EOF ''\n".to_string()));
}

fn run_program(constants: &[f64], code: &[u8]) -> Result<f64, Fault> {
    let mut chunk: Chunk<f64> = Chunk::new();
    for c in constants {
        chunk.add_constant(*c);
    }
    for b in code {
        chunk.write_chunk(*b, 1);
    }
    VM::new(chunk).run(negate, binary)
}

#[test]
fn precedence_shaped_code_multiplies_then_adds() {
    let code = [1, 0, 1, 1, 1, 2, OpCode::MULTIPLY.to_byte(), OpCode::ADD.to_byte(), OpCode::RETURN.to_byte()];
    assert_eq!(run_program(&[2.0, 3.0, 4.0], &code), Ok(14.0));
}

#[test]
fn subtraction_uses_first_pushed_as_left() {
    let code = [1, 0, 1, 1, OpCode::SUBTRACT.to_byte(), OpCode::RETURN.to_byte()];
    assert_eq!(run_program(&[5.0, 3.0], &code), Ok(2.0));
}

#[test]
fn negation_of_a_constant() {
    let code = [1, 0, OpCode::NEGATE.to_byte(), OpCode::RETURN.to_byte()];
    assert_eq!(run_program(&[2.0], &code), Ok(-2.0));
}

#[test]
fn zero_over_zero_is_nan() {
    let code = [1, 0, 1, 1, OpCode::DIVIDE.to_byte(), OpCode::RETURN.to_byte()];
    assert!(run_program(&[0.0, 0.0], &code).unwrap().is_nan());
}

#[test]
fn run_faults_on_invalid_opcode_and_empty_pops() {
    assert_eq!(run_program(&[], &[7]), Err(Fault::InvalidOpcode(7)));
    assert_eq!(run_program(&[], &[OpCode::RETURN.to_byte()]), Err(Fault::StackUnderflow));
    let code = [1, 0, OpCode::ADD.to_byte(), OpCode::RETURN.to_byte()];
    assert_eq!(run_program(&[1.0], &code), Err(Fault::StackUnderflow));
    assert_eq!(run_program(&[], &[1, 0, 0]), Err(Fault::BadConstant(0)));
}

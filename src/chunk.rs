//! Bytecode chunks: an append-only instruction stream with a per-byte line
//! table and a constant pool, its instruction decoding, and its disassembler.

use vstd::prelude::*;
use crate::text::{chars_of, decimal, pad_left, pad_right, push_all, push_number, push_padded, string_of};

verus! {

/// The instruction mnemonics, encoded densely from 0 in declaration order.
#[allow(non_camel_case_types)]
#[derive(Clone, Copy, Debug, PartialEq, Eq, Structural)]
pub enum OpCode {
    RETURN,
    CONSTANT,
    NEGATE,
    ADD,
    SUBTRACT,
    MULTIPLY,
    DIVIDE,
}

/// The opcode that byte `b` encodes, if any.
pub open spec fn opcode_of(b: u8) -> Option<OpCode> {
    if b == 0 {
        Some(OpCode::RETURN)
    } else if b == 1 {
        Some(OpCode::CONSTANT)
    } else if b == 2 {
        Some(OpCode::NEGATE)
    } else if b == 3 {
        Some(OpCode::ADD)
    } else if b == 4 {
        Some(OpCode::SUBTRACT)
    } else if b == 5 {
        Some(OpCode::MULTIPLY)
    } else if b == 6 {
        Some(OpCode::DIVIDE)
    } else {
        None
    }
}

impl OpCode {
    /// The byte that encodes this opcode.
    pub open spec fn spec_byte(self) -> u8 {
        match self {
            OpCode::RETURN => 0,
            OpCode::CONSTANT => 1,
            OpCode::NEGATE => 2,
            OpCode::ADD => 3,
            OpCode::SUBTRACT => 4,
            OpCode::MULTIPLY => 5,
            OpCode::DIVIDE => 6,
        }
    }

    /// The name the disassembler prints for this opcode.
    pub open spec fn spec_mnemonic(self) -> Seq<char> {
        match self {
            OpCode::RETURN => "OP_RETURN"@,
            OpCode::CONSTANT => "OP_CONSTANT"@,
            OpCode::NEGATE => "OP_NEGATE"@,
            OpCode::ADD => "OP_ADD"@,
            OpCode::SUBTRACT => "OP_SUBTRACT"@,
            OpCode::MULTIPLY => "OP_MULTIPLY"@,
            OpCode::DIVIDE => "OP_DIVIDE"@,
        }
    }

    /// Decodes a byte; `None` for a byte outside the encoding.
    pub fn from_byte(b: u8) -> (r: Option<OpCode>)
        ensures
            r == opcode_of(b),
    {
        if b == 0 {
            Some(OpCode::RETURN)
        } else if b == 1 {
            Some(OpCode::CONSTANT)
        } else if b == 2 {
            Some(OpCode::NEGATE)
        } else if b == 3 {
            Some(OpCode::ADD)
        } else if b == 4 {
            Some(OpCode::SUBTRACT)
        } else if b == 5 {
            Some(OpCode::MULTIPLY)
        } else if b == 6 {
            Some(OpCode::DIVIDE)
        } else {
            None
        }
    }

    /// Encodes this opcode as a byte.
    pub fn to_byte(self) -> (r: u8)
        ensures
            r == self.spec_byte(),
            opcode_of(r) == Some(self),
    {
        match self {
            OpCode::RETURN => 0,
            OpCode::CONSTANT => 1,
            OpCode::NEGATE => 2,
            OpCode::ADD => 3,
            OpCode::SUBTRACT => 4,
            OpCode::MULTIPLY => 5,
            OpCode::DIVIDE => 6,
        }
    }

    /// The name the disassembler prints for this opcode.
    pub fn mnemonic(self) -> (r: &'static str)
        ensures
            r@ == self.spec_mnemonic(),
    {
        match self {
            OpCode::RETURN => "OP_RETURN",
            OpCode::CONSTANT => "OP_CONSTANT",
            OpCode::NEGATE => "OP_NEGATE",
            OpCode::ADD => "OP_ADD",
            OpCode::SUBTRACT => "OP_SUBTRACT",
            OpCode::MULTIPLY => "OP_MULTIPLY",
            OpCode::DIVIDE => "OP_DIVIDE",
        }
    }
}

/// A broken invariant of a chunk or of the machine running it. These never
/// come from user input: they mean the code that built the chunk is wrong.
#[derive(Clone, Copy, Debug, PartialEq, Eq, Structural)]
pub enum Fault {
    /// A byte in opcode position that encodes no opcode.
    InvalidOpcode(u8),
    /// A `CONSTANT` at the last byte, with no operand after it.
    MissingOperand,
    /// A constant operand at or past the end of the constant pool.
    BadConstant(u8),
    /// A pop from an empty operand stack.
    StackUnderflow,
    /// Execution ran past the last byte without a `RETURN`.
    EndOfCode,
}

/// One decoded instruction.
#[derive(Clone, Copy, Debug, PartialEq, Eq, Structural)]
pub enum Instruction {
    /// An instruction without operands (never `CONSTANT`).
    Simple(OpCode),
    /// `CONSTANT` with its constant-pool index.
    Constant(u8),
}

impl Instruction {
    /// How many bytes the instruction takes in the code.
    pub open spec fn width(self) -> nat {
        match self {
            Instruction::Simple(_) => 1,
            Instruction::Constant(_) => 2,
        }
    }
}

/// The instruction at `offset` of `code`, for a constant pool of `n_constants`
/// values, or the fault that decoding it meets.
pub open spec fn decode_at(code: Seq<u8>, n_constants: nat, offset: int) -> Result<Instruction, Fault> {
    if offset < 0 || offset >= code.len() {
        Err(Fault::EndOfCode)
    } else {
        match opcode_of(code[offset]) {
            None => Err(Fault::InvalidOpcode(code[offset])),
            Some(OpCode::CONSTANT) => {
                if offset + 1 >= code.len() {
                    Err(Fault::MissingOperand)
                } else if code[offset + 1] >= n_constants {
                    Err(Fault::BadConstant(code[offset + 1]))
                } else {
                    Ok(Instruction::Constant(code[offset + 1]))
                }
            },
            Some(op) => Ok(Instruction::Simple(op)),
        }
    }
}

/// The line column of the disassembly at `offset`: the line number, or a
/// continuation marker when the byte before lies on the same line.
pub open spec fn line_column(lines: Seq<usize>, offset: int) -> Seq<char> {
    if offset > 0 && lines[offset] == lines[offset - 1] {
        "   | "@
    } else {
        pad_left(decimal(lines[offset] as nat), 4, ' ') + " "@
    }
}

/// The disassembly line of instruction `ins` at `offset`, where `texts[i]` is
/// the printed form of constant `i`.
pub open spec fn instruction_line(lines: Seq<usize>, offset: int, ins: Instruction, texts: Seq<String>) -> Seq<char> {
    pad_left(decimal(offset as nat), 4, '0') + " "@ + line_column(lines, offset) + match ins {
        Instruction::Simple(op) => op.spec_mnemonic() + "\n"@,
        Instruction::Constant(i) => pad_right(OpCode::CONSTANT.spec_mnemonic(), 16) + " "@
            + pad_left(decimal(i as nat), 4, ' ') + " '"@ + texts[i as int]@ + "'\n"@,
    }
}

/// When the first two bytes of a chunk were written on the same line, the
/// disassembly of the instruction at offset 1 prints the continuation marker,
/// not the line number again.
pub proof fn lemma_same_line_continuation<V>(c: Chunk<V>, ins: Instruction, texts: Seq<String>)
    requires
        c.wf(),
        c.code@.len() >= 2,
        c.spec_lines()[0] == c.spec_lines()[1],
    ensures
        instruction_line(c.spec_lines(), 1, ins, texts).subrange(0, 10) == "0001    | "@,
{
    reveal_strlit("0001    | ");
    reveal_strlit(" ");
    reveal_strlit("   | ");
    let head = pad_left(decimal(1), 4, '0') + " "@ + "   | "@;
    assert(decimal(1) == seq!['1']);
    assert(head =~= "0001    | "@);
    assert(instruction_line(c.spec_lines(), 1, ins, texts).subrange(0, 10) =~= head);
}

/// A `CONSTANT` written with the index that `add_constant` returned for a
/// value (an index that fits the operand byte) decodes to that index, and
/// disassembles to the mnemonic, the index and the printed form of the value;
/// the next instruction follows two bytes on.
pub proof fn lemma_constant_round_trip<V>(c: Chunk<V>, offset: int, index: usize, value: V, texts: Seq<String>)
    requires
        c.wf(),
        0 <= offset,
        offset + 1 < c.code@.len(),
        index < 256,
        index < c.constants@.len(),
        c.constants@[index as int] == value,
        c.code@[offset] == OpCode::CONSTANT.spec_byte(),
        c.code@[offset + 1] == index as u8,
    ensures
        c.spec_decode(offset) == Ok::<Instruction, Fault>(Instruction::Constant(index as u8)),
        c.spec_decode(offset)->Ok_0.width() == 2,
        c.constants@[(index as u8) as int] == value,
        instruction_line(c.spec_lines(), offset, Instruction::Constant(index as u8), texts) == pad_left(
            decimal(offset as nat),
            4,
            '0',
        ) + " "@ + line_column(c.spec_lines(), offset) + "OP_CONSTANT      "@ + pad_left(
            decimal(index as nat),
            4,
            ' ',
        ) + " '"@ + texts[index as int]@ + "'\n"@,
{
    reveal_strlit("OP_CONSTANT");
    reveal_strlit("OP_CONSTANT      ");
    reveal_strlit(" ");
    assert((index as u8) as usize == index);
    assert(pad_right(OpCode::CONSTANT.spec_mnemonic(), 16) + " "@ =~= "OP_CONSTANT      "@);
}

/// The disassembly of `code` from `offset` on, one line per instruction, or
/// the first fault that decoding meets.
pub open spec fn listing_from(code: Seq<u8>, lines: Seq<usize>, n_constants: nat, texts: Seq<String>, offset: int) -> Result<Seq<char>, Fault>
    decreases code.len() - offset,
{
    if offset < 0 || offset >= code.len() {
        Ok(Seq::empty())
    } else {
        match decode_at(code, n_constants, offset) {
            Err(f) => Err(f),
            Ok(ins) => match listing_from(code, lines, n_constants, texts, offset + ins.width()) {
                Ok(rest) => Ok(instruction_line(lines, offset, ins, texts) + rest),
                Err(f) => Err(f),
            },
        }
    }
}

/// An append-only bytecode program: `code` holds opcodes and their operands,
/// `lines` the source line of each byte of `code`, `constants` the values the
/// `CONSTANT` operands index.
pub struct Chunk<V> {
    pub code: Vec<u8>,
    pub constants: Vec<V>,
    pub lines: Vec<usize>,
}

impl<V> Chunk<V> {
    /// The source line of each byte of the code.
    pub open spec fn spec_lines(&self) -> Seq<usize> {
        self.lines@
    }

    /// Every byte of the code has its line.
    pub open spec fn wf(&self) -> bool {
        self.spec_lines().len() == self.code@.len()
    }

    /// The instruction at `offset`, or the fault that decoding it meets.
    pub open spec fn spec_decode(&self, offset: int) -> Result<Instruction, Fault> {
        decode_at(self.code@, self.constants@.len(), offset)
    }

    pub fn new() -> (r: Self)
        ensures
            r.wf(),
            r.code@ == Seq::<u8>::empty(),
            r.constants@ == Seq::<V>::empty(),
            r.spec_lines() == Seq::<usize>::empty(),
    {
        Chunk { code: Vec::new(), constants: Vec::new(), lines: Vec::new() }
    }

    /// Appends one byte, opcode or operand, written on source line `line`.
    pub fn write_chunk(&mut self, byte: u8, line: usize)
        requires
            old(self).wf(),
        ensures
            final(self).wf(),
            final(self).code@ == old(self).code@.push(byte),
            final(self).spec_lines() == old(self).spec_lines().push(line),
            final(self).constants@ == old(self).constants@,
    {
        self.code.push(byte);
        self.lines.push(line);
    }

    /// Appends `value` to the constant pool and returns its index.
    pub fn add_constant(&mut self, value: V) -> (index: usize)
        ensures
            index == old(self).constants@.len(),
            final(self).wf() == old(self).wf(),
            final(self).constants@ == old(self).constants@.push(value),
            final(self).code@ == old(self).code@,
            final(self).spec_lines() == old(self).spec_lines(),
    {
        self.constants.push(value);
        self.constants.len() - 1
    }

    /// Whether every byte of the code has its line, as `write_chunk` keeps it
    /// (a direct change of the public fields can break it).
    pub fn lines_match_code(&self) -> (r: bool)
        ensures
            r == self.wf(),
    {
        self.lines.len() == self.code.len()
    }

    /// The source line of the byte at `offset`.
    pub fn line(&self, offset: usize) -> (r: usize)
        requires
            self.wf(),
            offset < self.code@.len(),
        ensures
            r == self.spec_lines()[offset as int],
    {
        self.lines[offset]
    }

    /// Decodes the instruction at `offset`.
    pub fn decode(&self, offset: usize) -> (r: Result<Instruction, Fault>)
        ensures
            r == self.spec_decode(offset as int),
    {
        if offset >= self.code.len() {
            return Err(Fault::EndOfCode);
        }
        let byte = self.code[offset];
        match OpCode::from_byte(byte) {
            None => Err(Fault::InvalidOpcode(byte)),
            Some(OpCode::CONSTANT) => {
                if offset + 1 >= self.code.len() {
                    Err(Fault::MissingOperand)
                } else {
                    let index = self.code[offset + 1];
                    if index as usize >= self.constants.len() {
                        Err(Fault::BadConstant(index))
                    } else {
                        Ok(Instruction::Constant(index))
                    }
                }
            },
            Some(op) => Ok(Instruction::Simple(op)),
        }
    }

    /// The disassembly line of the instruction at `offset` and the offset of
    /// the instruction after it. `texts[i]` is the printed form of constant `i`.
    pub fn disassemble_instruction(&self, offset: usize, texts: &Vec<String>) -> (r: Result<(String, usize), Fault>)
        requires
            self.wf(),
            texts@.len() == self.constants@.len(),
        ensures
            match self.spec_decode(offset as int) {
                Ok(ins) => r matches Ok((s, next)) && s@ == instruction_line(
                    self.spec_lines(),
                    offset as int,
                    ins,
                    texts@,
                ) && next == offset + ins.width(),
                Err(f) => r == Err::<(String, usize), Fault>(f),
            },
    {
        let ins = match self.decode(offset) {
            Ok(ins) => ins,
            Err(f) => return Err(f),
        };
        let n = self.code.len();
        assert(offset < n);
        let mut out: Vec<char> = Vec::new();
        push_number(&mut out, offset, 4, '0');
        push_all(&mut out, &chars_of(" "));
        if offset > 0 && self.lines[offset] == self.lines[offset - 1] {
            push_all(&mut out, &chars_of("   | "));
        } else {
            push_number(&mut out, self.lines[offset], 4, ' ');
            push_all(&mut out, &chars_of(" "));
        }
        let next = match ins {
            Instruction::Simple(op) => {
                push_all(&mut out, &chars_of(op.mnemonic()));
                push_all(&mut out, &chars_of("\n"));
                offset + 1
            },
            Instruction::Constant(i) => {
                push_padded(&mut out, &chars_of(OpCode::CONSTANT.mnemonic()), 16);
                push_all(&mut out, &chars_of(" "));
                push_number(&mut out, i as usize, 4, ' ');
                push_all(&mut out, &chars_of(" '"));
                push_all(&mut out, &chars_of(texts[i as usize].as_str()));
                push_all(&mut out, &chars_of("'\n"));
                offset + 2
            },
        };
        Ok((string_of(&out), next))
    }

    /// The disassembly of the whole chunk under a `== name ==` header, or the
    /// first fault that decoding meets. `texts[i]` is the printed form of
    /// constant `i`.
    pub fn disassemble_chunk(&self, name: &str, texts: &Vec<String>) -> (r: Result<String, Fault>)
        requires
            self.wf(),
            texts@.len() == self.constants@.len(),
        ensures
            match listing_from(self.code@, self.spec_lines(), self.constants@.len(), texts@, 0) {
                Ok(body) => r matches Ok(x) && x@ == "== "@ + name@ + " ==\n"@ + body,
                Err(f) => r == Err::<String, Fault>(f),
            },
    {
        let mut out: Vec<char> = Vec::new();
        push_all(&mut out, &chars_of("== "));
        push_all(&mut out, &chars_of(name));
        push_all(&mut out, &chars_of(" ==\n"));
        let ghost header = out@;
        let ghost whole = listing_from(self.code@, self.spec_lines(), self.constants@.len(), texts@, 0);
        let mut offset: usize = 0;
        while offset < self.code.len()
            invariant
                self.wf(),
                texts@.len() == self.constants@.len(),
                offset <= self.code@.len(),
                header == "== "@ + name@ + " ==\n"@,
                whole == listing_from(self.code@, self.spec_lines(), self.constants@.len(), texts@, 0),
                match whole {
                    Ok(body) => listing_from(
                        self.code@,
                        self.spec_lines(),
                        self.constants@.len(),
                        texts@,
                        offset as int,
                    ) matches Ok(rest) && header + body == out@ + rest,
                    Err(f) => listing_from(
                        self.code@,
                        self.spec_lines(),
                        self.constants@.len(),
                        texts@,
                        offset as int,
                    ) == Err::<Seq<char>, Fault>(f),
                },
            decreases self.code@.len() - offset,
        {
            match self.disassemble_instruction(offset, texts) {
                Ok((line, next)) => {
                    let ghost rest_before = listing_from(
                        self.code@,
                        self.spec_lines(),
                        self.constants@.len(),
                        texts@,
                        offset as int,
                    );
                    let ghost out_before = out@;
                    push_all(&mut out, &chars_of(line.as_str()));
                    proof {
                        if whole is Ok {
                            let rest = listing_from(
                                self.code@,
                                self.spec_lines(),
                                self.constants@.len(),
                                texts@,
                                next as int,
                            );
                            assert(out_before + rest_before->Ok_0 =~= out@ + rest->Ok_0);
                        }
                    }
                    offset = next;
                },
                Err(f) => {
                    return Err(f);
                },
            }
        }
        proof {
            if whole is Ok {
                assert(out@ + Seq::<char>::empty() =~= out@);
            }
        }
        Ok(string_of(&out))
    }
}

} // verus!

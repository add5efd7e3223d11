//! The virtual machine's dispatch step: fetch and decode one instruction and
//! apply it to the operand stack. Arithmetic on values is the caller's: a step
//! that needs it hands the popped operands back, and the caller pushes the
//! result.

use vstd::prelude::*;
use crate::chunk::{decode_at, Chunk, Fault, Instruction, OpCode};

verus! {

/// The caller-visible failures of interpretation.
#[allow(non_camel_case_types)]
#[derive(Clone, Copy, Debug, PartialEq, Eq, Structural)]
pub enum InterpretError {
    COMPILE_ERROR,
    RUNTIME_ERROR,
}

/// The binary arithmetic operations.
#[allow(non_camel_case_types)]
#[derive(Clone, Copy, Debug, PartialEq, Eq, Structural)]
pub enum BinaryOp {
    ADD,
    SUBTRACT,
    MULTIPLY,
    DIVIDE,
}

/// What one step did, and what it leaves to the caller.
#[derive(Debug, PartialEq, Eq)]
pub enum Step<V> {
    /// A constant was pushed; nothing is left to do.
    Pushed,
    /// A value was popped; the caller pushes its negation.
    Negate(V),
    /// The right operand, then the left were popped; the caller pushes
    /// `left op right`. Fields: the operation, the left, the right operand.
    Binary(BinaryOp, V, V),
    /// The result was popped: execution is complete.
    Return(V),
}

/// The binary operation an opcode performs, if it is one.
pub open spec fn binary_of(op: OpCode) -> Option<BinaryOp> {
    match op {
        OpCode::ADD => Some(BinaryOp::ADD),
        OpCode::SUBTRACT => Some(BinaryOp::SUBTRACT),
        OpCode::MULTIPLY => Some(BinaryOp::MULTIPLY),
        OpCode::DIVIDE => Some(BinaryOp::DIVIDE),
        _ => None,
    }
}

/// One step of the machine on `code` and `constants` at instruction pointer
/// `ip` with operand stack `stack`: what it did, the next instruction
/// pointer and the stack afterwards; or the fault it meets.
pub open spec fn step_spec<V>(code: Seq<u8>, constants: Seq<V>, ip: int, stack: Seq<V>) -> Result<(Step<V>, int, Seq<V>), Fault> {
    match decode_at(code, constants.len(), ip) {
        Err(f) => Err(f),
        Ok(Instruction::Constant(i)) => Ok((Step::Pushed, ip + 2, stack.push(constants[i as int]))),
        Ok(Instruction::Simple(op)) => {
            let n = stack.len();
            if op == OpCode::RETURN {
                if n == 0 {
                    Err(Fault::StackUnderflow)
                } else {
                    Ok((Step::Return(stack[n - 1]), ip + 1, stack.drop_last()))
                }
            } else if op == OpCode::NEGATE {
                if n == 0 {
                    Err(Fault::StackUnderflow)
                } else {
                    Ok((Step::Negate(stack[n - 1]), ip + 1, stack.drop_last()))
                }
            } else {
                if n < 2 {
                    Err(Fault::StackUnderflow)
                } else {
                    Ok((
                        Step::Binary(binary_of(op)->0, stack[n - 2], stack[n - 1]),
                        ip + 1,
                        stack.subrange(0, n - 2),
                    ))
                }
            }
        },
    }
}

/// Whether a run of at most `fuel` steps from `ip` with `stack` can end in
/// `out`: `Ok(v)` when a `RETURN` pops `v`, `Err(f)` when a step meets fault
/// `f`. After a `NEGATE` or a binary step the run goes on with a value that
/// `negate` or `binary` may return for the popped operands pushed.
pub open spec fn run_ends<V, N: Fn(V) -> V, B: Fn(BinaryOp, V, V) -> V>(
    negate: N,
    binary: B,
    code: Seq<u8>,
    constants: Seq<V>,
    ip: int,
    stack: Seq<V>,
    fuel: nat,
    out: Result<V, Fault>,
) -> bool
    decreases fuel,
{
    if fuel == 0 {
        false
    } else {
        match step_spec(code, constants, ip, stack) {
            Err(f) => out == Err::<V, Fault>(f),
            Ok((Step::Return(v), _, _)) => out == Ok::<V, Fault>(v),
            Ok((Step::Pushed, next, after)) => run_ends(
                negate,
                binary,
                code,
                constants,
                next,
                after,
                (fuel - 1) as nat,
                out,
            ),
            Ok((Step::Negate(x), next, after)) => exists|y: V|
                #[trigger] negate.ensures((x,), y) && run_ends(
                    negate,
                    binary,
                    code,
                    constants,
                    next,
                    after.push(y),
                    (fuel - 1) as nat,
                    out,
                ),
            Ok((Step::Binary(op, l, r), next, after)) => exists|y: V|
                #[trigger] binary.ensures((op, l, r), y) && run_ends(
                    negate,
                    binary,
                    code,
                    constants,
                    next,
                    after.push(y),
                    (fuel - 1) as nat,
                    out,
                ),
        }
    }
}

/// When `negate` and `binary` each give one result per input, a run has one
/// outcome, however much fuel it is given.
pub proof fn lemma_run_deterministic<V, N: Fn(V) -> V, B: Fn(BinaryOp, V, V) -> V>(
    negate: N,
    binary: B,
    code: Seq<u8>,
    constants: Seq<V>,
    ip: int,
    stack: Seq<V>,
    fuel1: nat,
    fuel2: nat,
    out1: Result<V, Fault>,
    out2: Result<V, Fault>,
)
    requires
        forall|x: V, y1: V, y2: V| negate.ensures((x,), y1) && negate.ensures((x,), y2) ==> y1 == y2,
        forall|op: BinaryOp, l: V, r: V, y1: V, y2: V|
            binary.ensures((op, l, r), y1) && binary.ensures((op, l, r), y2) ==> y1 == y2,
        run_ends(negate, binary, code, constants, ip, stack, fuel1, out1),
        run_ends(negate, binary, code, constants, ip, stack, fuel2, out2),
    ensures
        out1 == out2,
    decreases fuel1,
{
    match step_spec(code, constants, ip, stack) {
        Ok((Step::Pushed, next, after)) => {
            lemma_run_deterministic(
                negate,
                binary,
                code,
                constants,
                next,
                after,
                (fuel1 - 1) as nat,
                (fuel2 - 1) as nat,
                out1,
                out2,
            );
        },
        Ok((Step::Negate(x), next, after)) => {
            let y1 = choose|y: V|
                #[trigger] negate.ensures((x,), y) && run_ends(
                    negate,
                    binary,
                    code,
                    constants,
                    next,
                    after.push(y),
                    (fuel1 - 1) as nat,
                    out1,
                );
            let y2 = choose|y: V|
                #[trigger] negate.ensures((x,), y) && run_ends(
                    negate,
                    binary,
                    code,
                    constants,
                    next,
                    after.push(y),
                    (fuel2 - 1) as nat,
                    out2,
                );
            lemma_run_deterministic(
                negate,
                binary,
                code,
                constants,
                next,
                after.push(y1),
                (fuel1 - 1) as nat,
                (fuel2 - 1) as nat,
                out1,
                out2,
            );
        },
        Ok((Step::Binary(op, l, r), next, after)) => {
            let y1 = choose|y: V|
                #[trigger] binary.ensures((op, l, r), y) && run_ends(
                    negate,
                    binary,
                    code,
                    constants,
                    next,
                    after.push(y),
                    (fuel1 - 1) as nat,
                    out1,
                );
            let y2 = choose|y: V|
                #[trigger] binary.ensures((op, l, r), y) && run_ends(
                    negate,
                    binary,
                    code,
                    constants,
                    next,
                    after.push(y),
                    (fuel2 - 1) as nat,
                    out2,
                );
            lemma_run_deterministic(
                negate,
                binary,
                code,
                constants,
                next,
                after.push(y1),
                (fuel1 - 1) as nat,
                (fuel2 - 1) as nat,
                out1,
                out2,
            );
        },
        _ => {},
    }
}

/// The code that pushes the constants indexed by `indices`, in order, then
/// returns.
pub open spec fn pushes_then_return(indices: Seq<u8>) -> Seq<u8>
    decreases indices.len(),
{
    if indices.len() == 0 {
        seq![0u8]
    } else {
        seq![1u8, indices[0]] + pushes_then_return(indices.drop_first())
    }
}

proof fn lemma_pushes_from<V, N: Fn(V) -> V, B: Fn(BinaryOp, V, V) -> V>(
    negate: N,
    binary: B,
    pre: Seq<u8>,
    indices: Seq<u8>,
    constants: Seq<V>,
    stack: Seq<V>,
    fuel: nat,
    out: Result<V, Fault>,
)
    requires
        stack.len() > 0 || indices.len() > 0,
        forall|k: int| 0 <= k < indices.len() ==> indices[k] < constants.len(),
        run_ends(negate, binary, pre + pushes_then_return(indices), constants, pre.len() as int, stack, fuel, out),
    ensures
        out == Ok::<V, Fault>(if indices.len() == 0 { stack.last() } else { constants[indices.last() as int] }),
    decreases indices.len(),
{
    let code = pre + pushes_then_return(indices);
    if indices.len() == 0 {
        assert(code[pre.len() as int] == 0u8);
    } else {
        let rest = indices.drop_first();
        let pre2 = pre + seq![1u8, indices[0]];
        assert(code =~= pre2 + pushes_then_return(rest));
        assert(code[pre.len() as int] == 1u8);
        assert(code[pre.len() + 1int] == indices[0]);
        assert(pushes_then_return(rest).len() > 0) by {
            if rest.len() > 0 {
            }
        }
        assert forall|k: int| 0 <= k < rest.len() implies rest[k] < constants.len() by {
            assert(rest[k] == indices[k + 1]);
        }
        lemma_pushes_from(
            negate,
            binary,
            pre2,
            rest,
            constants,
            stack.push(constants[indices[0] as int]),
            (fuel - 1) as nat,
            out,
        );
        if rest.len() > 0 {
            assert(rest.last() == indices.last());
        }
    }
}

/// Code that only pushes constants and then returns yields the last constant
/// it pushed, on every run.
pub proof fn lemma_pushes_then_return<V, N: Fn(V) -> V, B: Fn(BinaryOp, V, V) -> V>(
    negate: N,
    binary: B,
    indices: Seq<u8>,
    constants: Seq<V>,
    fuel: nat,
    out: Result<V, Fault>,
)
    requires
        indices.len() > 0,
        forall|k: int| 0 <= k < indices.len() ==> indices[k] < constants.len(),
        run_ends(negate, binary, pushes_then_return(indices), constants, 0, Seq::<V>::empty(), fuel, out),
    ensures
        out == Ok::<V, Fault>(constants[indices.last() as int]),
{
    assert(Seq::<u8>::empty() + pushes_then_return(indices) =~= pushes_then_return(indices));
    lemma_pushes_from(negate, binary, Seq::<u8>::empty(), indices, constants, Seq::<V>::empty(), fuel, out);
}

/// A machine executing one chunk.
pub struct VM<V> {
    chunk: Chunk<V>,
    ip: usize,
    stack: Vec<V>,
}

impl<V: Copy> VM<V> {
    pub closed spec fn spec_chunk(&self) -> Chunk<V> {
        self.chunk
    }

    pub closed spec fn spec_ip(&self) -> int {
        self.ip as int
    }

    pub closed spec fn spec_stack(&self) -> Seq<V> {
        self.stack@
    }

    /// This machine's next step.
    pub open spec fn next(&self) -> Result<(Step<V>, int, Seq<V>), Fault> {
        step_spec(self.spec_chunk().code@, self.spec_chunk().constants@, self.spec_ip(), self.spec_stack())
    }

    /// A machine at the first instruction of `chunk`, with an empty stack.
    pub fn new(chunk: Chunk<V>) -> (r: Self)
        ensures
            r.spec_chunk() == chunk,
            r.spec_ip() == 0,
            r.spec_stack() == Seq::<V>::empty(),
    {
        VM { chunk, ip: 0, stack: Vec::new() }
    }

    /// The chunk being executed.
    pub fn chunk(&self) -> (r: &Chunk<V>)
        ensures
            *r == self.spec_chunk(),
    {
        &self.chunk
    }

    /// The offset of the next instruction.
    pub fn ip(&self) -> (r: usize)
        ensures
            r == self.spec_ip(),
    {
        self.ip
    }

    /// The operand stack, bottom first.
    pub fn stack(&self) -> (r: &Vec<V>)
        ensures
            r@ == self.spec_stack(),
    {
        &self.stack
    }

    /// Pushes a value that the caller computed for the last step.
    pub fn push(&mut self, v: V)
        ensures
            final(self).spec_stack() == old(self).spec_stack().push(v),
            final(self).spec_ip() == old(self).spec_ip(),
            final(self).spec_chunk() == old(self).spec_chunk(),
    {
        self.stack.push(v);
    }

    fn read_byte(&mut self) -> (b: u8)
        requires
            old(self).ip < old(self).chunk.code@.len(),
        ensures
            b == old(self).chunk.code@[old(self).ip as int],
            final(self).ip == old(self).ip + 1,
            final(self).chunk == old(self).chunk,
            final(self).stack == old(self).stack,
    {
        let byte = self.chunk.code[self.ip];
        let size = self.chunk.code.len();
        assert(self.ip < size);
        self.ip = self.ip + 1;
        byte
    }

    fn read_constant(&mut self) -> (v: V)
        requires
            old(self).ip < old(self).chunk.code@.len(),
            old(self).chunk.code@[old(self).ip as int] < old(self).chunk.constants@.len(),
        ensures
            v == old(self).chunk.constants@[old(self).chunk.code@[old(self).ip as int] as int],
            final(self).ip == old(self).ip + 1,
            final(self).chunk == old(self).chunk,
            final(self).stack == old(self).stack,
    {
        let offset = self.read_byte();
        self.chunk.constants[offset as usize]
    }

    /// Executes one instruction. On a fault the machine is left unchanged.
    pub fn step(&mut self) -> (r: Result<Step<V>, Fault>)
        ensures
            match old(self).next() {
                Ok((s, ip, stack)) => {
                    &&& r == Ok::<Step<V>, Fault>(s)
                    &&& final(self).spec_ip() == ip
                    &&& final(self).spec_stack() == stack
                },
                Err(f) => {
                    &&& r == Err::<Step<V>, Fault>(f)
                    &&& final(self).spec_ip() == old(self).spec_ip()
                    &&& final(self).spec_stack() == old(self).spec_stack()
                },
            },
            final(self).spec_chunk() == old(self).spec_chunk(),
    {
        let ins = match self.chunk.decode(self.ip) {
            Ok(ins) => ins,
            Err(f) => return Err(f),
        };
        let n = self.stack.len();
        match ins {
            Instruction::Constant(_) => {
                self.read_byte();
                let v = self.read_constant();
                self.stack.push(v);
                Ok(Step::Pushed)
            },
            Instruction::Simple(op) => {
                if op == OpCode::RETURN || op == OpCode::NEGATE {
                    if n == 0 {
                        return Err(Fault::StackUnderflow);
                    }
                    self.read_byte();
                    let v = self.stack.pop().unwrap();
                    if op == OpCode::RETURN {
                        Ok(Step::Return(v))
                    } else {
                        Ok(Step::Negate(v))
                    }
                } else {
                    if n < 2 {
                        return Err(Fault::StackUnderflow);
                    }
                    self.read_byte();
                    let b = self.stack.pop().unwrap();
                    let a = self.stack.pop().unwrap();
                    let bin = match op {
                        OpCode::ADD => BinaryOp::ADD,
                        OpCode::SUBTRACT => BinaryOp::SUBTRACT,
                        OpCode::MULTIPLY => BinaryOp::MULTIPLY,
                        _ => BinaryOp::DIVIDE,
                    };
                    assert(self.stack@ =~= old(self).stack@.subrange(0, n - 2));
                    Ok(Step::Binary(bin, a, b))
                }
            },
        }
    }

    /// Runs to completion: the value a `RETURN` pops, or the first fault.
    /// `negate` and `binary` compute what `NEGATE` and the binary operations
    /// push. The outcome is one that a run of the steps can end in.
    pub fn run<N: Fn(V) -> V, B: Fn(BinaryOp, V, V) -> V>(&mut self, negate: N, binary: B) -> (r: Result<V, Fault>)
        requires
            forall|v: V| negate.requires((v,)),
            forall|op: BinaryOp, a: V, b: V| binary.requires((op, a, b)),
        ensures
            exists|fuel: nat|
                run_ends(
                    negate,
                    binary,
                    old(self).spec_chunk().code@,
                    old(self).spec_chunk().constants@,
                    old(self).spec_ip(),
                    old(self).spec_stack(),
                    fuel,
                    r,
                ),
            final(self).spec_chunk() == old(self).spec_chunk(),
    {
        let ghost code = self.chunk.code@;
        let ghost constants = self.chunk.constants@;
        let ghost ip0 = self.spec_ip();
        let ghost stack0 = self.spec_stack();
        let ghost mut k: nat = 0;
        loop
            invariant
                self.spec_chunk() == old(self).spec_chunk(),
                code == self.chunk.code@,
                constants == self.chunk.constants@,
                code == old(self).spec_chunk().code@,
                constants == old(self).spec_chunk().constants@,
                ip0 == old(self).spec_ip(),
                stack0 == old(self).spec_stack(),
                forall|v: V| negate.requires((v,)),
                forall|op: BinaryOp, a: V, b: V| binary.requires((op, a, b)),
                forall|fuel: nat, out: Result<V, Fault>|
                    #[trigger] run_ends(negate, binary, code, constants, self.spec_ip(), self.spec_stack(), fuel, out)
                        ==> run_ends(negate, binary, code, constants, ip0, stack0, fuel + k, out),
            decreases usize::MAX - self.spec_ip(),
        {
            let ghost before = *self;
            match self.step() {
                Err(f) => {
                    proof {
                        assert(run_ends(negate, binary, code, constants, before.spec_ip(), before.spec_stack(), 1, Err(f)));
                        assert(run_ends(negate, binary, code, constants, ip0, stack0, 1 + k, Err(f)));
                    }
                    return Err(f);
                },
                Ok(Step::Pushed) => {
                    proof {
                        assert forall|fuel: nat, out: Result<V, Fault>|
                            #[trigger] run_ends(negate, binary, code, constants, self.spec_ip(), self.spec_stack(), fuel, out)
                            implies run_ends(negate, binary, code, constants, ip0, stack0, fuel + (k + 1), out) by {
                            assert(run_ends(negate, binary, code, constants, before.spec_ip(), before.spec_stack(), fuel + 1, out));
                        }
                        k = k + 1;
                    }
                },
                Ok(Step::Negate(x)) => {
                    let ghost mid = self.spec_stack();
                    let value = negate(x);
                    self.push(value);
                    proof {
                        assert forall|fuel: nat, out: Result<V, Fault>|
                            #[trigger] run_ends(negate, binary, code, constants, self.spec_ip(), self.spec_stack(), fuel, out)
                            implies run_ends(negate, binary, code, constants, ip0, stack0, fuel + (k + 1), out) by {
                            assert(negate.ensures((x,), value));
                            assert(self.spec_stack() == mid.push(value));
                            assert(run_ends(negate, binary, code, constants, before.spec_ip(), before.spec_stack(), fuel + 1, out));
                        }
                        k = k + 1;
                    }
                },
                Ok(Step::Binary(op, a, b)) => {
                    let ghost mid = self.spec_stack();
                    let value = binary(op, a, b);
                    self.push(value);
                    proof {
                        assert forall|fuel: nat, out: Result<V, Fault>|
                            #[trigger] run_ends(negate, binary, code, constants, self.spec_ip(), self.spec_stack(), fuel, out)
                            implies run_ends(negate, binary, code, constants, ip0, stack0, fuel + (k + 1), out) by {
                            assert(binary.ensures((op, a, b), value));
                            assert(self.spec_stack() == mid.push(value));
                            assert(run_ends(negate, binary, code, constants, before.spec_ip(), before.spec_stack(), fuel + 1, out));
                        }
                        k = k + 1;
                    }
                },
                Ok(Step::Return(result)) => {
                    proof {
                        assert(run_ends(negate, binary, code, constants, before.spec_ip(), before.spec_stack(), 1, Ok(result)));
                        assert(run_ends(negate, binary, code, constants, ip0, stack0, 1 + k, Ok(result)));
                    }
                    return Ok(result);
                },
            }
        }
    }
}

} // verus!

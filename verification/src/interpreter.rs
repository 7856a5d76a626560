//! The execution frame and the instruction interpreter: decoding, the
//! per-opcode transitions, the run loop, and the sub-call machinery with
//! its revert semantics.
use vstd::prelude::*;
use crate::arith::be_val;
use crate::env::{Block, Call, Env, same_call_mod_result};
use crate::errors::VmError;
use crate::logs::{Log, dup_logs};
use crate::memory::Memory;
use crate::opcode::{Opcode, spec_decode, spec_fix_gas, valid_dests, validate_jumpdest};
use crate::stack::Stack;
use crate::state::State;
use crate::types::{word_mod, word_signed, sdiv_val, smod_val, Address, Bytes, Bytes32};

verus! {

/// What an instruction tells the run loop to do next.
pub enum ControlFlow {
    /// Keep decoding at the new program counter.
    Continue,
    /// Finish the frame successfully with no output.
    Stop,
    /// Finish the frame successfully with the output buffer set.
    Return,
    /// Finish the frame unsuccessfully; the output buffer may carry data.
    Revert,
}

/// The outcome of one frame: the final stack top-first, the emitted logs,
/// the success flag, and the output buffer.
pub struct EvmResult {
    pub stack: Vec<Bytes32>,
    pub logs: Vec<Log>,
    pub success: bool,
    pub result: Bytes,
}

/// The outcome a sub-call hands its parent: one as a word on success,
/// zero on failure, plus the child's output.
pub struct CallResult {
    pub success: Bytes32,
    pub result: Bytes,
}

/// One invocation's private execution state.
pub struct ExecutionContext {
    /// The call and block this frame runs under.
    pub env: Env,
    /// The account whose storage and balance this frame works on.
    pub target: Address,
    /// The code being executed.
    pub code: Bytes,
    /// The byte offset of the next instruction.
    pub pc: usize,
    /// The operand stack.
    pub stack: Stack,
    /// The world state this frame owns.
    pub state: State,
    /// The frame's memory.
    pub memory: Memory,
    /// Gas consumed so far; counts up and saturates.
    pub gas: u64,
    /// The output of the most recently completed sub-call.
    pub return_data: Bytes,
    /// Log records emitted by this frame.
    pub logs: Vec<Log>,
    /// Whether a STOP or RETURN ended the frame.
    pub stopped: bool,
    /// Accounts queued for deletion, committed on success.
    pub to_delete: Vec<Address>,
    /// How many further nested calls may be made.
    pub depth: usize,
}

/// The frame invariant: components well formed and the code short enough
/// that scanning it cannot overflow an address computation.
pub open spec fn ctx_wf(c: ExecutionContext) -> bool {
    c.stack.wf() && c.memory.wf() && c.state.wf() && c.code@.len() + 34 <= usize::MAX
}

/// Equal frames, the stack aside.
pub open spec fn same_but_stack(a: ExecutionContext, b: ExecutionContext) -> bool {
    b == (ExecutionContext { stack: b.stack, ..a })
}

/// Equal frames up to stack, gas, and program counter.
pub open spec fn same_but_sgp(a: ExecutionContext, b: ExecutionContext) -> bool {
    b == (ExecutionContext { stack: b.stack, gas: b.gas, pc: b.pc, ..a })
}

/// Equal frames up to stack, memory, gas, and program counter.
pub open spec fn same_but_smgp(a: ExecutionContext, b: ExecutionContext) -> bool {
    b == (ExecutionContext { stack: b.stack, memory: b.memory, gas: b.gas, pc: b.pc, ..a })
}

/// Equal frames up to stack, state, gas, and program counter.
pub open spec fn same_but_sstate(a: ExecutionContext, b: ExecutionContext) -> bool {
    b == (ExecutionContext { stack: b.stack, state: b.state, gas: b.gas, pc: b.pc, ..a })
}

/// Equal frames up to stack, memory, logs, gas, and program counter.
pub open spec fn same_but_slogs(a: ExecutionContext, b: ExecutionContext) -> bool {
    b == (ExecutionContext {
        stack: b.stack,
        memory: b.memory,
        logs: b.logs,
        gas: b.gas,
        pc: b.pc,
        ..a
    })
}

/// Equal frames up to the whole sub-call footprint: stack, memory, state,
/// return data, logs, gas, and program counter.
pub open spec fn same_but_call(a: ExecutionContext, b: ExecutionContext) -> bool {
    b == (ExecutionContext {
        stack: b.stack,
        memory: b.memory,
        state: b.state,
        return_data: b.return_data,
        logs: b.logs,
        gas: b.gas,
        pc: b.pc,
        ..a
    })
}

/// A binary word operation on the stack: two words popped, one pushed,
/// with the given value.
pub open spec fn stack_binop(old_s: Seq<Seq<u8>>, new_s: Seq<Seq<u8>>, v: nat) -> bool {
    &&& old_s.len() >= 2
    &&& new_s.len() == old_s.len() - 1
    &&& new_s.drop_last() == old_s.drop_last().drop_last()
    &&& new_s.last().len() == 32
    &&& be_val(new_s.last()) == v
}

/// A unary word operation on the stack.
pub open spec fn stack_unop(old_s: Seq<Seq<u8>>, new_s: Seq<Seq<u8>>, v: nat) -> bool {
    &&& old_s.len() >= 1
    &&& new_s.len() == old_s.len()
    &&& new_s.drop_last() == old_s.drop_last()
    &&& new_s.last().len() == 32
    &&& be_val(new_s.last()) == v
}

/// The value an arithmetic instruction computes from its two operands
/// (the first popped word is `a`, the second `b`).
pub open spec fn arith_val(op: Opcode, a: nat, b: nat) -> nat {
    match op {
        Opcode::ADD => ((a + b) % word_mod()) as nat,
        Opcode::MUL => ((a * b) % word_mod()) as nat,
        Opcode::SUB => (if b <= a {
            (a - b) as nat
        } else {
            (a + word_mod() - b) as nat
        }),
        Opcode::DIV => (if b == 0 {
            0nat
        } else {
            a / b
        }),
        Opcode::SDIV => sdiv_val(a, b),
        Opcode::MOD => (if b == 0 {
            0nat
        } else {
            a % b
        }),
        Opcode::SMOD => smod_val(a, b),
        _ => 0,
    }
}

/// The zero-or-one outcome of a comparison instruction.
pub open spec fn cmp_val(op: Opcode, a: nat, b: nat) -> nat {
    match op {
        Opcode::LT => (if a < b {
            1nat
        } else {
            0nat
        }),
        Opcode::GT => (if a > b {
            1nat
        } else {
            0nat
        }),
        Opcode::SLT => (if word_signed(a) < word_signed(b) {
            1nat
        } else {
            0nat
        }),
        Opcode::SGT => (if word_signed(a) > word_signed(b) {
            1nat
        } else {
            0nat
        }),
        Opcode::EQ => (if a == b {
            1nat
        } else {
            0nat
        }),
        _ => 0,
    }
}

/// The word a PUSH with n immediate bytes at `pc` pushes: the bytes after
/// the opcode, right-aligned, with bytes past the end of code read as zero.
pub open spec fn push_imm(code: Seq<u8>, pc: int, n: int) -> Seq<u8> {
    Seq::new(
        32,
        |i: int|
            if i < 32 - n {
                0u8
            } else if pc + 1 + (i - (32 - n)) < code.len() {
                code[pc + 1 + (i - (32 - n))]
            } else {
                0u8
            },
    )
}

/// Maps an instruction-level failure to a revert of the frame.
fn ctl(r: Result<(), VmError>) -> (c: ControlFlow)
    ensures
        (c is Continue) == (r is Ok),
        (c is Revert) == (r is Err),
{
    match r {
        Ok(()) => ControlFlow::Continue,
        Err(_) => ControlFlow::Revert,
    }
}

impl ExecutionContext {
    /// A fresh top-level frame: empty stack and memory, program counter
    /// zero, and the full nesting budget.
    pub fn new(call: Call, block: Block, state: State, code: Bytes) -> (r: ExecutionContext)
        requires
            state.wf(),
            code@.len() + 34 <= usize::MAX,
        ensures
            ctx_wf(r),
            r.env.call == call,
            r.env.block == block,
            r.target@ == call.recipient@,
            r.code == code,
            r.pc == 0,
            r.stack@.len() == 0,
            r.state == state,
            r.memory@.len() == 0,
            r.gas == 0,
            r.return_data@.len() == 0,
            r.logs@.len() == 0,
            r.stopped == false,
            r.to_delete@.len() == 0,
            r.depth == 1024,
    {
        let target = call.recipient.dup();
        ExecutionContext {
            env: Env::new(call, block),
            target,
            code,
            pc: 0,
            stack: Stack::new(),
            state,
            memory: Memory::new(),
            gas: 0,
            return_data: Bytes::new(),
            logs: Vec::new(),
            stopped: false,
            to_delete: Vec::new(),
            depth: 1024,
        }
    }

    /// Builds a child frame for a sub-call: a fresh stack and memory, the
    /// given code and call, a copy of the world state, and one less level
    /// of nesting budget.
    pub fn sub_ctx(&self, code: Bytes, call: Call) -> (r: ExecutionContext)
        requires
            ctx_wf(*self),
            self.depth >= 1,
            code@.len() + 34 <= usize::MAX,
        ensures
            ctx_wf(r),
            r.code == code,
            r.env.call == call,
            r.target@ == call.recipient@,
            r.pc == 0,
            r.stack@.len() == 0,
            r.memory@.len() == 0,
            r.return_data@.len() == 0,
            r.logs@.len() == 0,
            r.to_delete@.len() == 0,
            r.stopped == false,
            r.depth == self.depth - 1,
            forall|a: Seq<u8>| #[trigger] r.state.balance_of(a) == self.state.balance_of(a),
            forall|a: Seq<u8>| #[trigger] r.state.nonce_of(a) == self.state.nonce_of(a),
            forall|a: Seq<u8>| #[trigger] r.state.code_of(a) == self.state.code_of(a),
            forall|a: Seq<u8>, k: Seq<u8>|
                #[trigger] r.state.slot_of(a, k) == self.state.slot_of(a, k),
    {
        let target = call.recipient.dup();
        let block = self.env.block.dup();
        ExecutionContext {
            env: Env::new(call, block),
            target,
            code,
            pc: 0,
            stack: Stack::new(),
            state: self.state.snapshot(),
            memory: Memory::new(),
            gas: 0,
            return_data: Bytes::new(),
            logs: Vec::new(),
            stopped: false,
            to_delete: Vec::new(),
            depth: self.depth - 1,
        }
    }

    /// The code size of this frame.
    pub fn code_size(&self) -> (r: usize)
        ensures
            r == self.code@.len(),
    {
        self.code.len()
    }

    /// The return data of the last completed sub-call.
    pub fn return_data(&self) -> (r: Bytes)
        ensures
            r@ == self.return_data@,
    {
        self.return_data.dup()
    }

    /// The gas consumed so far.
    pub fn gas_left(&self) -> (r: u64)
        ensures
            r == self.gas,
    {
        self.gas
    }

    /// Appends a log record.
    pub fn add_log(&mut self, log: Log)
        ensures
            final(self).logs@ == old(self).logs@.push(log),
            *final(self) == (ExecutionContext { logs: final(self).logs, ..*old(self) }),
    {
        self.logs.push(log);
    }

    /// Queues the current contract for deletion at frame end.
    pub fn selfdestruct_queue(&mut self)
        ensures
            final(self).to_delete@.len() == old(self).to_delete@.len() + 1,
            *final(self) == (ExecutionContext { to_delete: final(self).to_delete, ..*old(self) }),
    {
        let a = self.target.dup();
        self.to_delete.push(a);
    }

    /// Adds `amount` to the gas counter, saturating at the maximum: gas
    /// only ever grows.
    fn charge(&mut self, amount: u64)
        ensures
            *final(self) == (ExecutionContext { gas: final(self).gas, ..*old(self) }),
            final(self).gas >= old(self).gas,
            old(self).gas + amount <= u64::MAX ==> final(self).gas == old(self).gas + amount,
    {
        if self.gas <= u64::MAX - amount {
            self.gas = self.gas + amount;
        } else {
            self.gas = u64::MAX;
        }
    }

    /// Adds `base * factor` gas, saturating on any overflow.
    fn charge_mul(&mut self, base: u64, factor: u64)
        ensures
            *final(self) == (ExecutionContext { gas: final(self).gas, ..*old(self) }),
            final(self).gas >= old(self).gas,
            base * factor + old(self).gas <= u64::MAX ==> final(self).gas == old(self).gas
                + base * factor,
    {
        if factor != 0 && base > u64::MAX / factor {
            proof {
                assert(base * factor > u64::MAX) by (nonlinear_arith)
                    requires
                        factor != 0,
                        base > u64::MAX / factor,
                        u64::MAX / factor == ((u64::MAX as int) / (factor as int)),
                ;
            }
            self.gas = u64::MAX;
        } else {
            let amount: u64 = if factor == 0 {
                0
            } else {
                proof {
                    assert(base * factor <= u64::MAX) by (nonlinear_arith)
                        requires
                            factor != 0,
                            base <= u64::MAX / factor,
                            u64::MAX / factor == ((u64::MAX as int) / (factor as int)),
                ;
                }
                base * factor
            };
            self.charge(amount);
        }
    }

    /// Advances past the current instruction byte.
    fn step_pc(&mut self)
        requires
            old(self).pc < old(self).code@.len(),
            ctx_wf(*old(self)),
        ensures
            *final(self) == (ExecutionContext { pc: final(self).pc, ..*old(self) }),
            final(self).pc == old(self).pc + 1,
    {
        self.pc = self.pc + 1;
    }

    /// Pops a word and reads it as a machine offset; a value that does not
    /// fit the machine fails with out-of-range.
    fn pop_usize(&mut self) -> (r: Result<usize, VmError>)
        requires
            old(self).stack.wf(),
        ensures
            same_but_stack(*old(self), *final(self)),
            final(self).stack.wf(),
            r is Ok <==> (old(self).stack@.len() > 0 && be_val(old(self).stack@.last())
                <= usize::MAX),
            r is Ok ==> final(self).stack@ == old(self).stack@.drop_last() && r->Ok_0 == be_val(
                old(self).stack@.last(),
            ),
            r is Err ==> final(self).stack@ == old(self).stack@ || final(self).stack@ == old(self).stack@.drop_last(),
    {
        match self.stack.pop() {
            Ok(w) => {
                match w.as_usize() {
                    Some(u) => Ok(u),
                    None => Err(VmError::OutOfRange),
                }
            },
            Err(e) => Err(e),
        }
    }

    /// The end of a memory span, when the whole access fits the machine.
    fn span_end(&self, offset: usize, size: usize) -> (r: Option<usize>)
        ensures
            r is Some <==> offset + size + 31 <= usize::MAX,
            r is Some ==> r->0 == offset + size,
    {
        if offset <= usize::MAX - 31 && size <= usize::MAX - 31 - offset {
            Some(offset + size)
        } else {
            None
        }
    }
}

} // verus!

verus! {

impl ExecutionContext {
    /// The arithmetic instructions: pops two words, pushes the result.
    fn op_arith(&mut self, op: Opcode) -> (r: Result<(), VmError>)
        requires
            old(self).stack.wf(),
            op is ADD || op is MUL || op is SUB || op is DIV || op is SDIV || op is MOD
                || op is SMOD,
        ensures
            same_but_stack(*old(self), *final(self)),
            final(self).stack.wf(),
            r is Ok <==> old(self).stack@.len() >= 2,
            r is Ok ==> stack_binop(
                old(self).stack@,
                final(self).stack@,
                arith_val(
                    op,
                    be_val(old(self).stack@.last()),
                    be_val(old(self).stack@[old(self).stack@.len() - 2]),
                ),
            ),
            r is Err ==> r->Err_0 is StackUnderflow,
    {
        let a = match self.stack.pop() {
            Ok(w) => w,
            Err(e) => {
                return Err(e);
            },
        };
        let b = match self.stack.pop() {
            Ok(w) => w,
            Err(e) => {
                return Err(e);
            },
        };
        let w = match op {
            Opcode::ADD => a.wrapping_add(&b),
            Opcode::MUL => a.wrapping_mul(&b),
            Opcode::SUB => a.wrapping_sub(&b),
            Opcode::DIV => a.div_or_zero(&b),
            Opcode::SDIV => a.sdiv_word(&b),
            Opcode::MOD => a.mod_or_zero(&b),
            _ => a.smod_word(&b),
        };
        let pr = self.stack.push(w);
        proof {
            old(self).stack.lemma_wf();
            assert(pr is Ok);
            assert(final(self).stack@.drop_last() =~= old(self).stack@.drop_last().drop_last());
        }
        Ok(())
    }

    /// ADDMOD and MULMOD: pops three words, pushes the modular result.
    fn op_modmath(&mut self, op: Opcode) -> (r: Result<(), VmError>)
        requires
            old(self).stack.wf(),
            op is ADDMOD || op is MULMOD,
        ensures
            same_but_stack(*old(self), *final(self)),
            final(self).stack.wf(),
            r is Ok <==> old(self).stack@.len() >= 3,
            r is Ok ==> {
                let s = old(self).stack@;
                let a = be_val(s.last());
                let b = be_val(s[s.len() - 2]);
                let m = be_val(s[s.len() - 3]);
                &&& final(self).stack@.len() == s.len() - 2
                &&& final(self).stack@.drop_last() == s.drop_last().drop_last().drop_last()
                &&& final(self).stack@.last().len() == 32
                &&& be_val(final(self).stack@.last()) == (if m == 0 {
                    0nat
                } else if op is ADDMOD {
                    (a + b) % m
                } else {
                    (a * b) % m
                })
            },
            r is Err ==> r->Err_0 is StackUnderflow,
    {
        let a = match self.stack.pop() {
            Ok(w) => w,
            Err(e) => {
                return Err(e);
            },
        };
        let b = match self.stack.pop() {
            Ok(w) => w,
            Err(e) => {
                return Err(e);
            },
        };
        let m = match self.stack.pop() {
            Ok(w) => w,
            Err(e) => {
                return Err(e);
            },
        };
        let w = match op {
            Opcode::ADDMOD => a.add_mod(&b, &m),
            _ => a.mul_mod(&b, &m),
        };
        let pr = self.stack.push(w);
        proof {
            old(self).stack.lemma_wf();
            assert(pr is Ok);
            assert(final(self).stack@.drop_last() =~= old(self).stack@.drop_last().drop_last().drop_last());
        }
        Ok(())
    }

    /// EXP: pops base and exponent, pushes base^exponent mod 2^256, and
    /// charges 50 gas per significant byte of the exponent.
    fn op_exp(&mut self) -> (r: Result<(), VmError>)
        requires
            old(self).stack.wf(),
        ensures
            same_but_sgp(*old(self), *final(self)),
            final(self).pc == old(self).pc,
            final(self).stack.wf(),
            final(self).gas >= old(self).gas,
            r is Ok <==> old(self).stack@.len() >= 2,
            r is Ok ==> {
                let s = old(self).stack@;
                &&& final(self).stack@.len() == s.len() - 1
                &&& final(self).stack@.drop_last() == s.drop_last().drop_last()
                &&& final(self).stack@.last().len() == 32
                &&& be_val(final(self).stack@.last()) as int == vstd::arithmetic::power::pow(
                    be_val(s.last()) as int,
                    be_val(s[s.len() - 2]),
                ) % (word_mod() as int)
            },
            r is Err ==> r->Err_0 is StackUnderflow,
    {
        let a = match self.stack.pop() {
            Ok(w) => w,
            Err(e) => {
                return Err(e);
            },
        };
        let b = match self.stack.pop() {
            Ok(w) => w,
            Err(e) => {
                return Err(e);
            },
        };
        // Gas: 50 per significant byte of the exponent.
        let blen = b.byte_len();
        self.charge_mul(50, blen as u64);
        let w = a.exp_word(&b);
        let pr = self.stack.push(w);
        proof {
            old(self).stack.lemma_wf();
            assert(pr is Ok);
            assert(final(self).stack@.drop_last() =~= old(self).stack@.drop_last().drop_last());
        }
        Ok(())
    }

    /// The comparison instructions: pops two words, pushes one or zero.
    fn op_cmp(&mut self, op: Opcode) -> (r: Result<(), VmError>)
        requires
            old(self).stack.wf(),
            op is LT || op is GT || op is SLT || op is SGT || op is EQ,
        ensures
            same_but_stack(*old(self), *final(self)),
            final(self).stack.wf(),
            r is Ok <==> old(self).stack@.len() >= 2,
            r is Ok ==> stack_binop(
                old(self).stack@,
                final(self).stack@,
                cmp_val(
                    op,
                    be_val(old(self).stack@.last()),
                    be_val(old(self).stack@[old(self).stack@.len() - 2]),
                ),
            ),
            r is Err ==> r->Err_0 is StackUnderflow,
    {
        let a = match self.stack.pop() {
            Ok(w) => w,
            Err(e) => {
                return Err(e);
            },
        };
        let b = match self.stack.pop() {
            Ok(w) => w,
            Err(e) => {
                return Err(e);
            },
        };
        let cond: bool = match op {
            Opcode::LT => a.lt_word(&b),
            Opcode::GT => b.lt_word(&a),
            Opcode::SLT => a.slt_word(&b),
            Opcode::SGT => b.slt_word(&a),
            _ => a.eq_word(&b),
        };
        let w = if cond {
            Bytes32::one()
        } else {
            Bytes32::zero()
        };
        let pr = self.stack.push(w);
        proof {
            old(self).stack.lemma_wf();
            assert(pr is Ok);
            assert(final(self).stack@.drop_last() =~= old(self).stack@.drop_last().drop_last());
        }
        Ok(())
    }

    /// ISZERO: pops one word, pushes one exactly when it was zero.
    fn op_iszero(&mut self) -> (r: Result<(), VmError>)
        requires
            old(self).stack.wf(),
        ensures
            same_but_stack(*old(self), *final(self)),
            final(self).stack.wf(),
            r is Ok <==> old(self).stack@.len() >= 1,
            r is Ok ==> stack_unop(
                old(self).stack@,
                final(self).stack@,
                (if be_val(old(self).stack@.last()) == 0 {
                    1nat
                } else {
                    0nat
                }),
            ),
            r is Err ==> r->Err_0 is StackUnderflow,
    {
        let a = match self.stack.pop() {
            Ok(w) => w,
            Err(e) => {
                return Err(e);
            },
        };
        let w = if a.is_zero() {
            Bytes32::one()
        } else {
            Bytes32::zero()
        };
        let pr = self.stack.push(w);
        proof {
            old(self).stack.lemma_wf();
            assert(pr is Ok);
            assert(final(self).stack@.drop_last() =~= old(self).stack@.drop_last());
        }
        Ok(())
    }

    /// AND, OR, XOR: pops two words, pushes the bytewise combination.
    fn op_bitwise(&mut self, op: Opcode) -> (r: Result<(), VmError>)
        requires
            old(self).stack.wf(),
            op is AND || op is OR || op is XOR,
        ensures
            same_but_stack(*old(self), *final(self)),
            final(self).stack.wf(),
            r is Ok <==> old(self).stack@.len() >= 2,
            r is Ok ==> {
                let s = old(self).stack@;
                let a = s.last();
                let b = s[s.len() - 2];
                &&& final(self).stack@.len() == s.len() - 1
                &&& final(self).stack@.drop_last() == s.drop_last().drop_last()
                &&& final(self).stack@.last().len() == 32
                &&& forall|i: int|
                    0 <= i < 32 ==> final(self).stack@.last()[i] == (if op is AND {
                        a[i] & b[i]
                    } else if op is OR {
                        a[i] | b[i]
                    } else {
                        a[i] ^ b[i]
                    })
            },
            r is Err ==> r->Err_0 is StackUnderflow,
    {
        let a = match self.stack.pop() {
            Ok(w) => w,
            Err(e) => {
                return Err(e);
            },
        };
        let b = match self.stack.pop() {
            Ok(w) => w,
            Err(e) => {
                return Err(e);
            },
        };
        let w = match op {
            Opcode::AND => a.bitand(&b),
            Opcode::OR => a.bitor(&b),
            _ => a.bitxor(&b),
        };
        let pr = self.stack.push(w);
        proof {
            old(self).stack.lemma_wf();
            assert(pr is Ok);
            assert(final(self).stack@.drop_last() =~= old(self).stack@.drop_last().drop_last());
        }
        Ok(())
    }

    /// NOT: pops one word, pushes its bytewise complement.
    fn op_not(&mut self) -> (r: Result<(), VmError>)
        requires
            old(self).stack.wf(),
        ensures
            same_but_stack(*old(self), *final(self)),
            final(self).stack.wf(),
            r is Ok <==> old(self).stack@.len() >= 1,
            r is Ok ==> {
                let s = old(self).stack@;
                &&& final(self).stack@.len() == s.len()
                &&& final(self).stack@.drop_last() == s.drop_last()
                &&& final(self).stack@.last().len() == 32
                &&& forall|i: int|
                    0 <= i < 32 ==> final(self).stack@.last()[i] == !s.last()[i]
            },
            r is Err ==> r->Err_0 is StackUnderflow,
    {
        let a = match self.stack.pop() {
            Ok(w) => w,
            Err(e) => {
                return Err(e);
            },
        };
        let w = a.bitnot();
        let pr = self.stack.push(w);
        proof {
            old(self).stack.lemma_wf();
            assert(pr is Ok);
            assert(final(self).stack@.drop_last() =~= old(self).stack@.drop_last());
        }
        Ok(())
    }

    /// BYTE: pops an index and a word, pushes that byte of the word,
    /// counted from the most significant end; an index past 31 gives zero.
    fn op_byte(&mut self) -> (r: Result<(), VmError>)
        requires
            old(self).stack.wf(),
        ensures
            same_but_stack(*old(self), *final(self)),
            final(self).stack.wf(),
            r is Ok <==> old(self).stack@.len() >= 2,
            r is Ok ==> stack_binop(
                old(self).stack@,
                final(self).stack@,
                ({
                    let s = old(self).stack@;
                    let i = be_val(s.last());
                    if i < 32 {
                        s[s.len() - 2][i as int] as nat
                    } else {
                        0nat
                    }
                }),
            ),
            r is Err ==> r->Err_0 is StackUnderflow,
    {
        let idx = match self.stack.pop() {
            Ok(w) => w,
            Err(e) => {
                return Err(e);
            },
        };
        let word = match self.stack.pop() {
            Ok(w) => w,
            Err(e) => {
                return Err(e);
            },
        };
        let b: u8 = match idx.as_usize() {
            Some(i) => word.get_byte(i),
            None => {
                proof {
                    assert(usize::MAX >= 32);
                }
                0
            },
        };
        let mut v: Vec<u8> = Vec::new();
        v.push(b);
        let w = Bytes32::from_vec(v);
        proof {
            crate::arith::lemma_be_val_single(seq![b]);
            crate::types::lemma_word_mod_facts();
            vstd::arithmetic::div_mod::lemma_small_mod(b as nat, word_mod());
        }
        let pr = self.stack.push(w);
        proof {
            old(self).stack.lemma_wf();
            assert(pr is Ok);
            assert(final(self).stack@.drop_last() =~= old(self).stack@.drop_last().drop_last());
        }
        Ok(())
    }

    /// SHL, SHR, SAR: pops the count and the word, pushes the shift.
    fn op_shift(&mut self, op: Opcode) -> (r: Result<(), VmError>)
        requires
            old(self).stack.wf(),
            op is SHL || op is SHR || op is SAR,
        ensures
            same_but_stack(*old(self), *final(self)),
            final(self).stack.wf(),
            r is Ok <==> old(self).stack@.len() >= 2,
            r is Ok ==> {
                let s = old(self).stack@;
                let sh = be_val(s.last());
                let v = be_val(s[s.len() - 2]);
                &&& final(self).stack@.len() == s.len() - 1
                &&& final(self).stack@.drop_last() == s.drop_last().drop_last()
                &&& final(self).stack@.last().len() == 32
                &&& (op is SHL ==> be_val(final(self).stack@.last()) == (if sh >= 256 {
                    0nat
                } else {
                    (v * crate::arith::p2(sh)) % word_mod()
                }))
                &&& (op is SHR ==> be_val(final(self).stack@.last()) == (if sh >= 256 {
                    0nat
                } else {
                    v / crate::arith::p2(sh)
                }))
                &&& (op is SAR ==> be_val(final(self).stack@.last()) as int == (if sh >= 256 {
                    if word_signed(v) < 0 {
                        word_mod() - 1
                    } else {
                        0int
                    }
                } else {
                    (word_signed(v) / (crate::arith::p2(sh) as int)) % (word_mod() as int)
                }))
            },
            r is Err ==> r->Err_0 is StackUnderflow,
    {
        let sh = match self.stack.pop() {
            Ok(w) => w,
            Err(e) => {
                return Err(e);
            },
        };
        let v = match self.stack.pop() {
            Ok(w) => w,
            Err(e) => {
                return Err(e);
            },
        };
        let w = match op {
            Opcode::SHL => v.shl_word(&sh),
            Opcode::SHR => v.shr_word(&sh),
            _ => v.sar_word(&sh),
        };
        let pr = self.stack.push(w);
        proof {
            old(self).stack.lemma_wf();
            assert(pr is Ok);
            assert(final(self).stack@.drop_last() =~= old(self).stack@.drop_last().drop_last());
        }
        Ok(())
    }

    /// SIGNEXTEND: pops a byte index and a word, pushes the word with the
    /// sign of byte 8(k+1)-1 copied through the higher bytes.
    fn op_signextend(&mut self) -> (r: Result<(), VmError>)
        requires
            old(self).stack.wf(),
        ensures
            same_but_stack(*old(self), *final(self)),
            final(self).stack.wf(),
            r is Ok <==> old(self).stack@.len() >= 2,
            r is Ok ==> {
                let s = old(self).stack@;
                let k = be_val(s.last());
                let x = s[s.len() - 2];
                &&& final(self).stack@.len() == s.len() - 1
                &&& final(self).stack@.drop_last() == s.drop_last().drop_last()
                &&& final(self).stack@.last().len() == 32
                &&& (k >= 31 ==> final(self).stack@.last() == x)
                &&& (k < 31 ==> (forall|i: int|
                    0 <= i < 32 ==> final(self).stack@.last()[i] == (if i < 31 - k {
                        (if x[31 - k] >= 128 {
                            255u8
                        } else {
                            0u8
                        })
                    } else {
                        x[i]
                    })))
            },
            r is Err ==> r->Err_0 is StackUnderflow,
    {
        let k = match self.stack.pop() {
            Ok(w) => w,
            Err(e) => {
                return Err(e);
            },
        };
        let x = match self.stack.pop() {
            Ok(w) => w,
            Err(e) => {
                return Err(e);
            },
        };
        let w = match k.as_usize() {
            Some(kk) => x.sign_extend_at(kk),
            None => {
                proof {
                    assert(usize::MAX >= 31);
                }
                let d = x.dup();
                proof {
                    assert(d@ =~= x@);
                }
                d
            },
        };
        let pr = self.stack.push(w);
        proof {
            old(self).stack.lemma_wf();
            assert(pr is Ok);
            assert(final(self).stack@.drop_last() =~= old(self).stack@.drop_last().drop_last());
        }
        Ok(())
    }

    /// POP: discards the top of the stack.
    fn op_pop(&mut self) -> (r: Result<(), VmError>)
        requires
            old(self).stack.wf(),
        ensures
            same_but_stack(*old(self), *final(self)),
            final(self).stack.wf(),
            r is Ok <==> old(self).stack@.len() >= 1,
            r is Ok ==> final(self).stack@ == old(self).stack@.drop_last(),
            r is Err ==> r->Err_0 is StackUnderflow,
    {
        match self.stack.pop() {
            Ok(_) => Ok(()),
            Err(e) => Err(e),
        }
    }

    /// PUSHn: reads the next n bytes as a right-aligned immediate, with
    /// bytes past the end of the code reading as zero, and advances the
    /// program counter past them.
    fn op_push(&mut self, n: usize) -> (r: Result<(), VmError>)
        requires
            ctx_wf(*old(self)),
            1 <= n <= 32,
            old(self).pc < old(self).code@.len(),
        ensures
            same_but_sgp(*old(self), *final(self)),
            final(self).gas == old(self).gas,
            final(self).stack.wf(),
            r is Ok <==> old(self).stack@.len() < 1024,
            r is Ok ==> final(self).stack@ == old(self).stack@.push(
                push_imm(old(self).code@, old(self).pc as int, n as int),
            ) && final(self).pc == old(self).pc + 1 + n,
            r is Err ==> r->Err_0 is StackOverflow,
    {
        let mut imm: Vec<u8> = Vec::new();
        let mut j: usize = 0;
        while j < n
            invariant
                j <= n,
                n <= 32,
                imm@.len() == j,
                self.pc < self.code@.len(),
                self.code@.len() + 34 <= usize::MAX,
                *self == *old(self),
                forall|t: int|
                    0 <= t < j ==> imm@[t] == (if self.pc + 1 + t < self.code@.len() {
                        self.code@[self.pc + 1 + t]
                    } else {
                        0u8
                    }),
            decreases n - j,
        {
            let b = self.code.read_byte(self.pc + 1 + j);
            imm.push(b);
            j += 1;
        }
        let w = Bytes32::from_vec(imm);
        match self.stack.push(w) {
            Ok(()) => {
                proof {
                    assert(w@ =~= push_imm(old(self).code@, old(self).pc as int, n as int));
                }
                self.pc = self.pc + 1 + n;
                Ok(())
            },
            Err(e) => Err(e),
        }
    }

    /// DUPn: pushes a copy of the n-th word from the top.
    fn op_dup(&mut self, n: usize) -> (r: Result<(), VmError>)
        requires
            old(self).stack.wf(),
            1 <= n <= 16,
        ensures
            same_but_stack(*old(self), *final(self)),
            final(self).stack.wf(),
            r is Ok <==> (n <= old(self).stack@.len() && old(self).stack@.len() < 1024),
            r is Ok ==> final(self).stack@ == old(self).stack@.push(
                old(self).stack@[old(self).stack@.len() - n],
            ),
            r is Err ==> final(self).stack@ == old(self).stack@,
    {
        let w = match self.stack.peek_from_top(n - 1) {
            Ok(w) => w,
            Err(e) => {
                return Err(e);
            },
        };
        match self.stack.push(w) {
            Ok(()) => Ok(()),
            Err(e) => Err(e),
        }
    }

    /// SWAPn: exchanges the top with the word n places below it.
    fn op_swap(&mut self, n: usize) -> (r: Result<(), VmError>)
        requires
            old(self).stack.wf(),
            1 <= n <= 16,
        ensures
            same_but_stack(*old(self), *final(self)),
            final(self).stack.wf(),
            r is Ok <==> n < old(self).stack@.len(),
            r is Ok ==> final(self).stack@ == old(self).stack@.update(
                old(self).stack@.len() - 1,
                old(self).stack@[old(self).stack@.len() - 1 - n],
            ).update(old(self).stack@.len() - 1 - n, old(self).stack@[old(self).stack@.len() - 1]),
            r is Err ==> final(self).stack@ == old(self).stack@,
    {
        self.stack.swap_with_top(n)
    }

    /// JUMP: pops the destination; the jump is taken exactly when the
    /// destination is a JUMPDEST byte reachable outside any PUSH
    /// immediate, and anything else reverts the frame.
    fn op_jump(&mut self) -> (r: Result<(), VmError>)
        requires
            ctx_wf(*old(self)),
        ensures
            same_but_sgp(*old(self), *final(self)),
            final(self).gas == old(self).gas,
            final(self).stack.wf(),
            r is Ok <==> (old(self).stack@.len() >= 1 && be_val(old(self).stack@.last())
                <= usize::MAX && valid_dests(old(self).code@, 0).contains(
                be_val(old(self).stack@.last()) as int,
            )),
            r is Ok ==> final(self).stack@ == old(self).stack@.drop_last() && final(self).pc
                == be_val(old(self).stack@.last()),
    {
        let dest = match self.pop_usize() {
            Ok(d) => d,
            Err(e) => {
                proof {
                    if old(self).stack@.len() >= 1 && be_val(old(self).stack@.last())
                        <= usize::MAX {
                        assert(false);
                    }
                }
                return Err(e);
            },
        };
        if validate_jumpdest(&self.code, dest) {
            self.pc = dest;
            Ok(())
        } else {
            Err(VmError::InvalidJump)
        }
    }

    /// JUMPI: pops destination and condition; with a zero condition it
    /// just steps on, otherwise it behaves as JUMP.
    fn op_jumpi(&mut self) -> (r: Result<(), VmError>)
        requires
            ctx_wf(*old(self)),
            old(self).pc < old(self).code@.len(),
        ensures
            same_but_sgp(*old(self), *final(self)),
            final(self).gas == old(self).gas,
            final(self).stack.wf(),
            r is Ok <==> (old(self).stack@.len() >= 2 && (be_val(
                old(self).stack@[old(self).stack@.len() - 2],
            ) == 0 || (be_val(old(self).stack@.last()) <= usize::MAX && valid_dests(
                old(self).code@,
                0,
            ).contains(be_val(old(self).stack@.last()) as int)))),
            r is Ok ==> final(self).stack@ == old(self).stack@.drop_last().drop_last(),
            (r is Ok && be_val(old(self).stack@[old(self).stack@.len() - 2]) == 0) ==> final(self).pc == old(self).pc + 1,
            (r is Ok && be_val(old(self).stack@[old(self).stack@.len() - 2]) != 0) ==> final(self).pc == be_val(old(self).stack@.last()),
    {
        let dest = match self.stack.pop() {
            Ok(w) => w,
            Err(e) => {
                return Err(e);
            },
        };
        let cond = match self.stack.pop() {
            Ok(w) => w,
            Err(e) => {
                return Err(e);
            },
        };
        if cond.is_zero() {
            self.pc = self.pc + 1;
            return Ok(());
        }
        let d = match dest.as_usize() {
            Some(d) => d,
            None => {
                return Err(VmError::OutOfRange);
            },
        };
        if validate_jumpdest(&self.code, d) {
            self.pc = d;
            Ok(())
        } else {
            Err(VmError::InvalidJump)
        }
    }
}

} // verus!

verus! {

impl ExecutionContext {
    /// MLOAD: pops an offset and pushes the 32 memory bytes there,
    /// growing memory to cover them; gas is the base cost per added byte.
    fn op_mload(&mut self) -> (r: Result<(), VmError>)
        requires
            ctx_wf(*old(self)),
        ensures
            same_but_smgp(*old(self), *final(self)),
            ctx_wf(*final(self)),
            final(self).gas >= old(self).gas,
            final(self).pc == old(self).pc,
            r is Ok <==> (old(self).stack@.len() >= 1 && be_val(old(self).stack@.last()) + 63
                <= usize::MAX),
            r is Ok ==> {
                let off = be_val(old(self).stack@.last());
                &&& old(self).stack@.len() >= 1
                &&& final(self).memory@ == crate::memory::mem_grown(
                    old(self).memory@,
                    (off + 32) as nat,
                )
                &&& final(self).stack@.len() == old(self).stack@.len()
                &&& final(self).stack@.drop_last() == old(self).stack@.drop_last()
                &&& final(self).stack@.last() == final(self).memory@.subrange(
                    off as int,
                    off as int + 32,
                )
            },
    {
        let off = match self.pop_usize() {
            Ok(o) => o,
            Err(e) => {
                return Err(e);
            },
        };
        if self.span_end(off, 32).is_none() {
            return Err(VmError::OutOfRange);
        }
        let exp = self.memory.expansion(off, 32);
        self.charge_mul(3, exp as u64);
        let data = self.memory.load(off, 32);
        let w = data.as_bytes32();
        let pr = self.stack.push(w);
        proof {
            old(self).stack.lemma_wf();
            assert(pr is Ok);
            assert(final(self).stack@.drop_last() =~= old(self).stack@.drop_last());
            assert(w@ =~= final(self).memory@.subrange(off as int, off + 32));
        }
        Ok(())
    }

    /// MSTORE: pops an offset and a word and writes the word's 32 bytes.
    fn op_mstore(&mut self) -> (r: Result<(), VmError>)
        requires
            ctx_wf(*old(self)),
        ensures
            same_but_smgp(*old(self), *final(self)),
            ctx_wf(*final(self)),
            final(self).gas >= old(self).gas,
            final(self).pc == old(self).pc,
            r is Ok <==> (old(self).stack@.len() >= 2 && be_val(old(self).stack@.last()) + 63
                <= usize::MAX),
            r is Ok ==> {
                let off = be_val(old(self).stack@.last());
                let v = old(self).stack@[old(self).stack@.len() - 2];
                let grown = crate::memory::mem_grown(old(self).memory@, (off + 32) as nat);
                &&& old(self).stack@.len() >= 2
                &&& final(self).stack@ == old(self).stack@.drop_last().drop_last()
                &&& final(self).memory@.len() == grown.len()
                &&& (forall|i: int|
                    0 <= i < final(self).memory@.len() ==> final(self).memory@[i] == (if off
                        <= i < off + 32 {
                        v[i - off]
                    } else {
                        grown[i]
                    }))
            },
    {
        let off = match self.pop_usize() {
            Ok(o) => o,
            Err(e) => {
                return Err(e);
            },
        };
        let v = match self.stack.pop() {
            Ok(w) => w,
            Err(e) => {
                return Err(e);
            },
        };
        if self.span_end(off, 32).is_none() {
            return Err(VmError::OutOfRange);
        }
        let exp = self.memory.expansion(off, 32);
        self.charge_mul(3, exp as u64);
        let data = v.as_bytes();
        self.memory.store(off, &data);
        Ok(())
    }

    /// MSTORE8: pops an offset and a word and writes the word's least
    /// significant byte.
    fn op_mstore8(&mut self) -> (r: Result<(), VmError>)
        requires
            ctx_wf(*old(self)),
        ensures
            same_but_smgp(*old(self), *final(self)),
            ctx_wf(*final(self)),
            final(self).gas >= old(self).gas,
            final(self).pc == old(self).pc,
            r is Ok <==> (old(self).stack@.len() >= 2 && be_val(old(self).stack@.last()) + 32
                <= usize::MAX),
            r is Ok ==> {
                let off = be_val(old(self).stack@.last());
                let v = old(self).stack@[old(self).stack@.len() - 2];
                let grown = crate::memory::mem_grown(old(self).memory@, (off + 1) as nat);
                &&& old(self).stack@.len() >= 2
                &&& final(self).stack@ == old(self).stack@.drop_last().drop_last()
                &&& final(self).memory@.len() == grown.len()
                &&& (forall|i: int|
                    0 <= i < final(self).memory@.len() ==> final(self).memory@[i] == (if i
                        == off {
                        v[31]
                    } else {
                        grown[i]
                    }))
            },
    {
        let off = match self.pop_usize() {
            Ok(o) => o,
            Err(e) => {
                return Err(e);
            },
        };
        let v = match self.stack.pop() {
            Ok(w) => w,
            Err(e) => {
                return Err(e);
            },
        };
        if self.span_end(off, 1).is_none() {
            return Err(VmError::OutOfRange);
        }
        let exp = self.memory.expansion(off, 1);
        self.charge_mul(3, exp as u64);
        v.wf_facts();
        let data = Bytes::from_byte(v.get_byte(31));
        self.memory.store(off, &data);
        Ok(())
    }

    /// SLOAD: pops a key and pushes the current contract's storage word;
    /// a never-written slot reads as zero.
    fn op_sload(&mut self) -> (r: Result<(), VmError>)
        requires
            old(self).stack.wf(),
        ensures
            same_but_stack(*old(self), *final(self)),
            final(self).stack.wf(),
            r is Ok <==> old(self).stack@.len() >= 1,
            r is Ok ==> final(self).stack@.len() == old(self).stack@.len() && final(self).stack@.drop_last() == old(self).stack@.drop_last() && final(self).stack@.last()
                == old(self).state.slot_of(old(self).target@, old(self).stack@.last()),
            r is Err ==> r->Err_0 is StackUnderflow,
    {
        let key = match self.stack.pop() {
            Ok(w) => w,
            Err(e) => {
                return Err(e);
            },
        };
        let v = self.state.storage_load(&self.target, &key);
        let pr = self.stack.push(v);
        proof {
            old(self).stack.lemma_wf();
            assert(pr is Ok);
            assert(final(self).stack@.drop_last() =~= old(self).stack@.drop_last());
        }
        Ok(())
    }

    /// SSTORE: pops a key and a value and writes the current contract's
    /// storage; forbidden in a static frame.
    fn op_sstore(&mut self) -> (r: Result<(), VmError>)
        requires
            old(self).stack.wf(),
            old(self).state.wf(),
        ensures
            same_but_sstate(*old(self), *final(self)),
            final(self).gas == old(self).gas,
            final(self).pc == old(self).pc,
            final(self).stack.wf(),
            final(self).state.wf(),
            r is Ok <==> (!old(self).env.call.view_only && old(self).stack@.len() >= 2),
            old(self).env.call.view_only ==> r->Err_0 is StaticViolation && *final(self) == *old(self),
            r is Ok ==> {
                let key = old(self).stack@.last();
                let v = old(self).stack@[old(self).stack@.len() - 2];
                &&& final(self).stack@ == old(self).stack@.drop_last().drop_last()
                &&& final(self).state.slot_of(old(self).target@, key) == v
                &&& (forall|k: Seq<u8>|
                    k != key ==> #[trigger] final(self).state.slot_of(old(self).target@, k)
                        == old(self).state.slot_of(old(self).target@, k))
                &&& (forall|a: Seq<u8>, k: Seq<u8>|
                    a != old(self).target@ ==> #[trigger] final(self).state.slot_of(a, k)
                        == old(self).state.slot_of(a, k))
                &&& (forall|a: Seq<u8>|
                    #[trigger] final(self).state.balance_of(a) == old(self).state.balance_of(a))
                &&& (forall|a: Seq<u8>|
                    #[trigger] final(self).state.code_of(a) == old(self).state.code_of(a))
            },
    {
        if self.env.call.is_static() {
            return Err(VmError::StaticViolation);
        }
        let key = match self.stack.pop() {
            Ok(w) => w,
            Err(e) => {
                return Err(e);
            },
        };
        let v = match self.stack.pop() {
            Ok(w) => w,
            Err(e) => {
                return Err(e);
            },
        };
        key.wf_facts();
        v.wf_facts();
        self.state.storage_store(&self.target, &key, &v);
        Ok(())
    }

    /// SHA3: pops an offset and size, hashes that memory range with
    /// Keccak-256, and pushes the digest; gas is 6 per 32-byte word read.
    fn op_sha3(&mut self) -> (r: Result<(), VmError>)
        requires
            ctx_wf(*old(self)),
        ensures
            same_but_smgp(*old(self), *final(self)),
            ctx_wf(*final(self)),
            final(self).gas >= old(self).gas,
            final(self).pc == old(self).pc,
            r is Ok <==> (old(self).stack@.len() >= 2 && be_val(old(self).stack@.last()) + be_val(
                old(self).stack@[old(self).stack@.len() - 2],
            ) + 31 <= usize::MAX),
            r is Ok ==> {
                let off = be_val(old(self).stack@.last());
                let sz = be_val(old(self).stack@[old(self).stack@.len() - 2]);
                &&& old(self).stack@.len() >= 2
                &&& final(self).memory@ == crate::memory::mem_grown(
                    old(self).memory@,
                    (off + sz) as nat,
                )
                &&& final(self).stack@.len() == old(self).stack@.len() - 1
                &&& final(self).stack@.drop_last() == old(self).stack@.drop_last().drop_last()
                &&& final(self).stack@.last() == crate::keccak::keccak256(
                    final(self).memory@.subrange(off as int, off as int + sz),
                )
            },
    {
        let off = match self.pop_usize() {
            Ok(o) => o,
            Err(e) => {
                return Err(e);
            },
        };
        let sz = match self.pop_usize() {
            Ok(o) => o,
            Err(e) => {
                return Err(e);
            },
        };
        if self.span_end(off, sz).is_none() {
            return Err(VmError::OutOfRange);
        }
        self.charge_mul(6, ((sz as u64) + 31) / 32);
        let data = self.memory.load(off, sz);
        let digest = crate::keccak::keccak256_of(data.as_slice());
        let w = Bytes32::from_vec(digest);
        let pr = self.stack.push(w);
        proof {
            old(self).stack.lemma_wf();
            assert(pr is Ok);
            assert(final(self).stack@.drop_last() =~= old(self).stack@.drop_last().drop_last());
            assert(data@ =~= final(self).memory@.subrange(off as int, off + sz));
            assert(w@ =~= crate::keccak::keccak256(data@));
        }
        Ok(())
    }

    /// CALLDATALOAD: pops an offset and pushes 32 calldata bytes from
    /// there, reading zero past the end.
    fn op_calldataload(&mut self) -> (r: Result<(), VmError>)
        requires
            old(self).stack.wf(),
        ensures
            same_but_stack(*old(self), *final(self)),
            final(self).stack.wf(),
            r is Ok <==> old(self).stack@.len() >= 1,
            r is Ok ==> {
                let off = be_val(old(self).stack@.last());
                let data = old(self).env.call.data@;
                &&& final(self).stack@.len() == old(self).stack@.len()
                &&& final(self).stack@.drop_last() == old(self).stack@.drop_last()
                &&& final(self).stack@.last().len() == 32
                &&& (forall|i: int|
                    0 <= i < 32 ==> final(self).stack@.last()[i] == (if off + i < data.len() {
                        data[off + i]
                    } else {
                        0u8
                    }))
            },
            r is Err ==> r->Err_0 is StackUnderflow,
    {
        let offw = match self.stack.pop() {
            Ok(w) => w,
            Err(e) => {
                return Err(e);
            },
        };
        let mut v: Vec<u8> = Vec::new();
        let ghost mid = *self;
        let dlen = self.env.call.data.len();
        match offw.as_usize() {
            Some(off) => {
                let mut j: usize = 0;
                while j < 32
                    invariant
                        j <= 32,
                        v@.len() == j,
                        *self == mid,
                        dlen == self.env.call.data@.len(),
                        off == be_val(offw@),
                        forall|i: int|
                            0 <= i < j ==> v@[i] == (if off + i < self.env.call.data@.len() {
                                self.env.call.data@[off + i]
                            } else {
                                0u8
                            }),
                    decreases 32 - j,
                {
                    let b: u8 = if j <= usize::MAX - off && off + j < dlen {
                        self.env.call.data.read_byte(off + j)
                    } else {
                        0
                    };
                    v.push(b);
                    j += 1;
                }
            },
            None => {
                let mut j: usize = 0;
                while j < 32
                    invariant
                        j <= 32,
                        v@.len() == j,
                        *self == mid,
                        dlen == self.env.call.data@.len(),
                        be_val(offw@) > usize::MAX,
                        forall|i: int| 0 <= i < j ==> v@[i] == 0,
                    decreases 32 - j,
                {
                    v.push(0);
                    j += 1;
                }
            },
        }
        let w = Bytes32::from_vec(v);
        proof {
            assert(w@ =~= v@);
        }
        let pr = self.stack.push(w);
        proof {
            old(self).stack.lemma_wf();
            assert(pr is Ok);
            assert(final(self).stack@.drop_last() =~= old(self).stack@.drop_last());
        }
        Ok(())
    }

    /// Writes `size` bytes of `src` starting at `src_off` to memory at
    /// `dest`, reading zero past the end of `src`; the copy step shared by
    /// the COPY instructions.
    fn write_mem_from(&mut self, dest: usize, src: &Bytes, src_off: usize, size: usize) -> (r:
        Result<(), VmError>)
        requires
            ctx_wf(*old(self)),
        ensures
            *final(self) == (ExecutionContext { memory: final(self).memory, ..*old(self) }),
            ctx_wf(*final(self)),
            r is Ok <==> dest + size + 31 <= usize::MAX,
            r is Err ==> *final(self) == *old(self),
            r is Ok ==> {
                let grown = crate::memory::mem_grown(old(self).memory@, (dest + size) as nat);
                &&& final(self).memory@.len() == grown.len()
                &&& (forall|i: int|
                    0 <= i < final(self).memory@.len() ==> final(self).memory@[i] == (if dest
                        <= i < dest + size {
                        (if src_off + (i - dest) < src@.len() {
                            src@[src_off + (i - dest)]
                        } else {
                            0u8
                        })
                    } else {
                        grown[i]
                    }))
            },
    {
        if self.span_end(dest, size).is_none() {
            return Err(VmError::OutOfRange);
        }
        let mut v: Vec<u8> = Vec::new();
        let mut j: usize = 0;
        let srclen = src.len();
        while j < size
            invariant
                j <= size,
                v@.len() == j,
                srclen == src@.len(),
                forall|i: int|
                    0 <= i < j ==> v@[i] == (if src_off + i < src@.len() {
                        src@[src_off + i]
                    } else {
                        0u8
                    }),
            decreases size - j,
        {
            let b: u8 = if j <= usize::MAX - src_off && src_off + j < srclen {
                src.read_byte(src_off + j)
            } else {
                0
            };
            v.push(b);
            j += 1;
        }
        let data = Bytes::from_vec(v);
        self.memory.store(dest, &data);
        Ok(())
    }

    /// LOGn: pops an offset, a size and `n` topics, reads the memory
    /// range, and appends a log record for the current contract.
    #[verifier::rlimit(60)]
    #[verifier::loop_isolation(false)]
    fn op_log(&mut self, n: usize) -> (r: Result<(), VmError>)
        requires
            ctx_wf(*old(self)),
            n <= 4,
        ensures
            same_but_slogs(*old(self), *final(self)),
            ctx_wf(*final(self)),
            final(self).gas == old(self).gas,
            final(self).pc == old(self).pc,
            r is Ok <==> (old(self).stack@.len() >= 2 + n && be_val(old(self).stack@.last())
                + be_val(old(self).stack@[old(self).stack@.len() - 2]) + 31 <= usize::MAX),
            r is Ok ==> {
                let off = be_val(old(self).stack@.last());
                let sz = be_val(old(self).stack@[old(self).stack@.len() - 2]);
                &&& old(self).stack@.len() >= 2 + n
                &&& final(self).logs@.len() == old(self).logs@.len() + 1
                &&& final(self).logs@.take(old(self).logs@.len() as int) == old(self).logs@
                &&& final(self).logs@.last().address@ == old(self).target@
                &&& final(self).logs@.last().data@ == final(self).memory@.subrange(
                    off as int,
                    off as int + sz,
                )
                &&& final(self).logs@.last().topics@.len() == n
                &&& final(self).memory@ == crate::memory::mem_grown(
                    old(self).memory@,
                    (off + sz) as nat,
                )
                &&& final(self).stack@ == old(self).stack@.take(
                    old(self).stack@.len() - 2 - n,
                )
            },
            r is Err ==> final(self).logs@ == old(self).logs@,
    {
        let off = match self.pop_usize() {
            Ok(o) => o,
            Err(e) => {
                return Err(e);
            },
        };
        let sz = match self.pop_usize() {
            Ok(o) => o,
            Err(e) => {
                return Err(e);
            },
        };
        if self.span_end(off, sz).is_none() {
            return Err(VmError::OutOfRange);
        }
        let data = self.memory.load(off, sz);
        proof {
            assert(data@ =~= self.memory@.subrange(off as int, off as int + sz));
        }
        let ghost dview = data@;
        let mut log = Log::new(self.target.dup(), data);
        let mut t: usize = 0;
        let ghost mid = *self;
        while t < n
            invariant
                t <= n,
                n <= 4,
                self.stack.wf(),
                *self == (ExecutionContext { stack: self.stack, ..mid }),
                log.topics@.len() == t,
                log.address@ == mid.target@,
                log.data@ == dview,
                mid.stack@.len() - t == self.stack@.len(),
                self.stack@ == mid.stack@.take(mid.stack@.len() - t),
            decreases n - t,
        {
            let topic = match self.stack.pop() {
                Ok(w) => w,
                Err(e) => {
                    return Err(e);
                },
            };
            log.add_topic(topic);
            proof {
                assert(self.stack@ =~= mid.stack@.take(mid.stack@.len() - t - 1));
            }
            t += 1;
        }
        self.add_log(log);
        proof {
            assert(final(self).logs@.take(old(self).logs@.len() as int) =~= old(self).logs@);
            assert(final(self).stack@ =~= old(self).stack@.take(
                old(self).stack@.len() - 2 - n,
            ));
        }
        Ok(())
    }

    /// RETURN and REVERT: pops an offset and size and captures that
    /// memory range as the frame's output buffer.
    #[verifier::rlimit(60)]
    fn op_capture_output(&mut self) -> (r: Result<(), VmError>)
        requires
            ctx_wf(*old(self)),
        ensures
            ctx_wf(*final(self)),
            final(self).stack.wf(),
            *final(self) == (ExecutionContext {
                stack: final(self).stack,
                memory: final(self).memory,
                gas: final(self).gas,
                env: final(self).env,
                ..*old(self)
            }),
            final(self).env.block == old(self).env.block,
            same_call_mod_result(old(self).env.call, final(self).env.call),
            final(self).gas >= old(self).gas,
            r is Ok <==> (old(self).stack@.len() >= 2 && be_val(old(self).stack@.last()) + be_val(
                old(self).stack@[old(self).stack@.len() - 2],
            ) + 31 <= usize::MAX),
            r is Err ==> final(self).env.call.result@ == old(self).env.call.result@,
            r is Ok ==> {
                let off = be_val(old(self).stack@.last());
                let sz = be_val(old(self).stack@[old(self).stack@.len() - 2]);
                &&& old(self).stack@.len() >= 2
                &&& final(self).stack@ == old(self).stack@.drop_last().drop_last()
                &&& final(self).memory@ == crate::memory::mem_grown(
                    old(self).memory@,
                    (off + sz) as nat,
                )
                &&& final(self).env.call.result@ == final(self).memory@.subrange(
                    off as int,
                    off as int + sz,
                )
            },
    {
        let off = match self.pop_usize() {
            Ok(o) => o,
            Err(e) => {
                return Err(e);
            },
        };
        let sz = match self.pop_usize() {
            Ok(o) => o,
            Err(e) => {
                return Err(e);
            },
        };
        if self.span_end(off, sz).is_none() {
            return Err(VmError::OutOfRange);
        }
        let data = self.memory.load(off, sz);
        proof {
            assert(data@ =~= self.memory@.subrange(off as int, off + sz));
        }
        self.env.call.set_result(data);
        Ok(())
    }
}

} // verus!

verus! {

/// A balance credit reduced into the word ring.
pub open spec fn credited(a: nat, b: nat) -> nat {
    (a + b) % word_mod()
}

/// The effective byte count of a COPY: the popped size, optionally capped
/// at the source length.
pub open spec fn copy_size(s: Seq<Seq<u8>>, src: Seq<u8>, clamp: bool) -> nat {
    let sz0 = be_val(s[s.len() - 3]);
    if clamp && sz0 > src.len() {
        src.len()
    } else {
        sz0
    }
}

/// When a COPY's operands are representable on the machine.
pub open spec fn copy_args_ok(s: Seq<Seq<u8>>, src: Seq<u8>, clamp: bool) -> bool {
    &&& s.len() >= 3
    &&& be_val(s.last()) <= usize::MAX
    &&& be_val(s[s.len() - 3]) <= usize::MAX
    &&& be_val(s.last()) + copy_size(s, src, clamp) + 31 <= usize::MAX
}

/// The value a call instruction attaches: popped for CALL and CALLCODE,
/// the parent's for DELEGATECALL, zero for STATICCALL.
pub open spec fn call_value_of(op: Opcode, pre: ExecutionContext) -> nat {
    if op is CALL || op is CALLCODE {
        be_val(pre.stack@[pre.stack@.len() - 3])
    } else if op is DELEGATECALL {
        be_val(pre.env.call.value@)
    } else {
        0
    }
}

/// When a call instruction goes through to push a flag: enough operands,
/// machine-representable offsets, no value from a static frame, and a
/// sender balance covering the value.
pub open spec fn call_args_ok(op: Opcode, pre: ExecutionContext) -> bool {
    let s = pre.stack@;
    let k = call_arity(op);
    &&& s.len() >= k
    &&& be_val(s[s.len() - k + 3]) + be_val(s[s.len() - k + 2]) + 31 <= usize::MAX
    &&& be_val(s[s.len() - k + 1]) <= usize::MAX
    &&& be_val(s[s.len() - k]) <= usize::MAX
    &&& !(op is CALL && pre.env.call.view_only && call_value_of(op, pre) != 0)
    &&& ((op is CALL || op is CALLCODE) ==> pre.state.balance_of(pre.target@) >= call_value_of(
        op,
        pre,
    ))
}

/// When CREATE goes through: enough operands, a machine-representable
/// initialization-code span, no value from a static frame, and a creator
/// balance covering the value.
pub open spec fn create_args_ok(pre: ExecutionContext) -> bool {
    let s = pre.stack@;
    &&& s.len() >= 3
    &&& be_val(s[s.len() - 2]) + be_val(s[s.len() - 3]) + 31 <= usize::MAX
    &&& !(pre.env.call.view_only && be_val(s.last()) != 0)
    &&& pre.state.balance_of(pre.target@) >= be_val(s.last())
}

/// How many words a call-family instruction pops before pushing its flag.
pub open spec fn call_arity(op: Opcode) -> int {
    if op is CALL || op is CALLCODE {
        7
    } else {
        6
    }
}

impl ExecutionContext {
    /// Pops a word and keeps its low 20 bytes as an address.
    fn pop_address(&mut self) -> (r: Result<Address, VmError>)
        requires
            old(self).stack.wf(),
        ensures
            same_but_stack(*old(self), *final(self)),
            final(self).stack.wf(),
            r is Ok <==> old(self).stack@.len() >= 1,
            r is Ok ==> final(self).stack@ == old(self).stack@.drop_last() && r->Ok_0@ == old(self).stack@.last().skip(12),
            r is Err ==> r->Err_0 is StackUnderflow,
    {
        match self.stack.pop() {
            Ok(w) => Ok(w.to_address()),
            Err(e) => Err(e),
        }
    }

    /// Pushes a word and steps past the instruction; a full stack reverts.
    fn push_step(&mut self, w: Bytes32) -> (c: ControlFlow)
        requires
            ctx_wf(*old(self)),
            old(self).pc < old(self).code@.len(),
        ensures
            same_but_sgp(*old(self), *final(self)),
            ctx_wf(*final(self)),
            final(self).gas == old(self).gas,
            c is Continue || c is Revert,
            (c is Continue) <==> old(self).stack@.len() < 1024,
            c is Continue ==> final(self).stack@ == old(self).stack@.push(w@) && final(self).pc
                == old(self).pc + 1,
    {
        match self.stack.push(w) {
            Ok(()) => {
                self.pc = self.pc + 1;
                ControlFlow::Continue
            },
            Err(_) => ControlFlow::Revert,
        }
    }

    /// The four call instructions. Pops the argument words, runs the
    /// callee against a copy of the world state, writes the returned
    /// bytes over the return area, and pushes one on success and zero on
    /// failure; when zero is pushed, the world state and the logs are
    /// exactly the pre-call ones.
    #[verifier::loop_isolation(false)]
    fn do_call(&mut self, op: Opcode) -> (c: ControlFlow)
        requires
            ctx_wf(*old(self)),
            old(self).pc < old(self).code@.len(),
            op is CALL || op is CALLCODE || op is DELEGATECALL || op is STATICCALL,
        ensures
            ctx_wf(*final(self)),
            same_but_call(*old(self), *final(self)),
            final(self).gas >= old(self).gas,
            c is Continue || c is Revert,
            (c is Continue) <==> call_args_ok(op, *old(self)),
            c is Revert ==> final(self).state == old(self).state && final(self).logs == old(self).logs,
            c is Continue ==> {
                &&& old(self).stack@.len() >= call_arity(op)
                &&& final(self).stack@.len() == old(self).stack@.len() - call_arity(op) + 1
                &&& final(self).stack@.drop_last() == old(self).stack@.take(
                    old(self).stack@.len() - call_arity(op),
                )
                &&& final(self).stack@.last().len() == 32
                &&& be_val(final(self).stack@.last()) <= 1
                &&& (be_val(final(self).stack@.last()) == 0 ==> final(self).state == old(self).state && final(self).logs == old(self).logs)
                &&& final(self).pc == old(self).pc + 1
            },
            (c is Continue && old(self).depth > 0) ==> {
                let s = old(self).stack@;
                let k = call_arity(op);
                let ao = be_val(s[s.len() - k + 3]);
                let asz = be_val(s[s.len() - k + 2]);
                let ro = be_val(s[s.len() - k + 1]);
                let rs = be_val(s[s.len() - k]);
                let grown = crate::memory::mem_grown(old(self).memory@, (ao + asz) as nat);
                &&& final(self).memory@.len() >= grown.len()
                &&& (forall|i: int|
                    0 <= i < grown.len() && !(ro <= i < ro + rs) ==> #[trigger] final(self).memory@[i] == grown[i])
            },
        decreases old(self).depth, 0nat, 1int,
    {
        proof {
            old(self).stack.lemma_wf();
        }
        let ghost s0 = old(self).stack@;
        let gas_word = match self.stack.pop() {
            Ok(w) => w,
            Err(_) => {
                return ControlFlow::Revert;
            },
        };
        let callee = match self.pop_address() {
            Ok(a) => a,
            Err(_) => {
                return ControlFlow::Revert;
            },
        };
        let value: Bytes32 = if matches!(op, Opcode::CALL) || matches!(op, Opcode::CALLCODE) {
            match self.stack.pop() {
                Ok(w) => w,
                Err(_) => {
                    return ControlFlow::Revert;
                },
            }
        } else if matches!(op, Opcode::DELEGATECALL) {
            self.env.call.value.dup()
        } else {
            Bytes32::zero()
        };
        let args_offset = match self.pop_usize() {
            Ok(v) => v,
            Err(_) => {
                return ControlFlow::Revert;
            },
        };
        let args_size = match self.pop_usize() {
            Ok(v) => v,
            Err(_) => {
                return ControlFlow::Revert;
            },
        };
        let ret_offset = match self.pop_usize() {
            Ok(v) => v,
            Err(_) => {
                return ControlFlow::Revert;
            },
        };
        let ret_size = match self.pop_usize() {
            Ok(v) => v,
            Err(_) => {
                return ControlFlow::Revert;
            },
        };
        // Pre-conditions: a static frame may not attach value, and the
        // sender must hold the value.
        if matches!(op, Opcode::CALL) {
            if self.env.call.is_static() && !value.is_zero() {
                return ControlFlow::Revert;
            }
        }
        if matches!(op, Opcode::CALL) || matches!(op, Opcode::CALLCODE) {
            let bal = self.state.balance(&self.target);
            if bal.lt_word(&value) {
                return ControlFlow::Revert;
            }
        }
        // The whole argument range must be addressable.
        match self.span_end(args_offset, args_size) {
            Some(_) => {},
            None => {
                return ControlFlow::Revert;
            },
        }
        // The nesting budget is exhausted: the call fails shallowly.
        if self.depth == 0 {
            let c = self.push_step(Bytes32::zero());
            proof {
                if c is Continue {
                    assert(final(self).stack@.drop_last() =~= s0.take(s0.len() - call_arity(op)));
                }
            }
            return c;
        }
        // Read the call data from memory.
        let data = self.memory.load(args_offset, args_size);
        let is_static = self.env.call.is_static();
        let call = if matches!(op, Opcode::CALL) {
            Call::new(
                self.target.dup(),
                callee.dup(),
                self.env.call.originator.dup(),
                self.env.call.gas_price.dup(),
                gas_word,
                callee,
                data,
                value,
                is_static,
            )
        } else if matches!(op, Opcode::CALLCODE) {
            Call::new(
                self.target.dup(),
                self.target.dup(),
                self.env.call.originator.dup(),
                self.env.call.gas_price.dup(),
                gas_word,
                callee,
                data,
                value,
                is_static,
            )
        } else if matches!(op, Opcode::DELEGATECALL) {
            Call::new(
                self.env.call.sender.dup(),
                self.target.dup(),
                self.env.call.originator.dup(),
                self.env.call.gas_price.dup(),
                gas_word,
                callee,
                data,
                value,
                is_static,
            )
        } else {
            Call::new(
                self.target.dup(),
                callee.dup(),
                self.env.call.originator.dup(),
                self.env.call.gas_price.dup(),
                gas_word,
                callee,
                data,
                value,
                true,
            )
        };
        let ghost pre_call = *self;
        let res = self.execute_call(call);
        // Copy the returned bytes over the return area, then push the flag.
        let copy_len: usize = if ret_size <= res.result.len() {
            ret_size
        } else {
            res.result.len()
        };
        match self.span_end(ret_offset, copy_len) {
            Some(_) => {
                let wr = self.write_mem_from(ret_offset, &res.result, 0, copy_len);
                proof {
                    assert(wr is Ok);
                }
            },
            None => {},
        }
        let c = self.push_step(res.success);
        proof {
            if c is Continue {
                assert(final(self).stack@.drop_last() =~= s0.take(s0.len() - call_arity(op)));
            }
        }
        c
    }

    /// Runs a sub-call to completion against a copy of the world state,
    /// per the call-scheme fields already fixed in `call`. The transfer
    /// happens in the copy; an insufficient balance fails the call and
    /// leaves the parent untouched. A callee without code succeeds at
    /// once with empty output and only the transfer applied. Otherwise a
    /// child frame runs the callee's code; the parent adopts the child's
    /// state only on a non-static successful completion, and either way
    /// the child's output becomes the parent's return-data buffer. On
    /// failure the parent's state and logs are exactly the pre-call ones.
    pub fn execute_call(&mut self, call: Call) -> (r: CallResult)
        requires
            ctx_wf(*old(self)),
            old(self).depth >= 1,
        ensures
            ctx_wf(*final(self)),
            *final(self) == (ExecutionContext {
                state: final(self).state,
                return_data: final(self).return_data,
                logs: final(self).logs,
                ..*old(self)
            }),
            r.success@.len() == 32,
            be_val(r.success@) <= 1,
            be_val(r.success@) == 0 ==> final(self).state == old(self).state && final(self).logs
                == old(self).logs,
            r.result@ == final(self).return_data@,
            (old(self).state.code_of(call.code_target@).len() == 0 && (call.value.val() == 0
                || old(self).state.balance_of(call.sender@) >= call.value.val())) ==> {
                &&& be_val(r.success@) == 1
                &&& r.result@.len() == 0
                &&& final(self).return_data@.len() == 0
                &&& ((!call.view_only && call.value.val() > 0 && call.sender@
                    != call.recipient@) ==> ((final(self).state.balance_of(call.sender@) == old(self).state.balance_of(call.sender@) - call.value.val()) && (final(self).state.balance_of(call.recipient@) == credited(old(self).state.balance_of(call.recipient@), call.value.val()))))
            },
            (old(self).state.code_of(call.code_target@).len() > 0 && old(self).state.code_of(
                call.code_target@,
            ).len() + 34 <= usize::MAX && (call.value.val() == 0 || old(self).state.balance_of(
                call.sender@,
            ) >= call.value.val())) ==> exists|sub0: ExecutionContext, subr: ExecutionContext, okf: bool, mid: ExecutionContext|
                #[trigger] call_outcome_shape(
                    *old(self),
                    *final(self),
                    call,
                    r,
                    sub0,
                    subr,
                    okf,
                    mid,
                ),
        decreases old(self).depth, 0nat, 0int,
    {
        let mut child_state = self.state.snapshot();
        match child_state.transfer(&call.sender, &call.recipient, &call.value) {
            Err(_) => {
                self.return_data = Bytes::new();
                return CallResult { success: Bytes32::zero(), result: Bytes::new() };
            },
            Ok(()) => {},
        }
        let code = self.state.code(&call.code_target);
        if code.len() > usize::MAX - 34 {
            self.return_data = Bytes::new();
            return CallResult { success: Bytes32::zero(), result: Bytes::new() };
        }
        if code.is_empty() {
            if !call.is_static() {
                self.state = child_state;
            }
            self.return_data = Bytes::new();
            return CallResult { success: Bytes32::one(), result: Bytes::new() };
        }
        let target = call.recipient.dup();
        let block = self.env.block.dup();
        let mut sub = ExecutionContext {
            env: Env::new(call, block),
            target,
            code,
            pc: 0,
            stack: Stack::new(),
            state: child_state,
            memory: Memory::new(),
            gas: 0,
            return_data: Bytes::new(),
            logs: Vec::new(),
            stopped: false,
            to_delete: Vec::new(),
            depth: self.depth - 1,
        };
        let ghost sub0 = sub;
        let res = sub.run(usize::MAX);
        proof {
            let m = choose|m: ExecutionContext|
                #[trigger] run_result_shape(sub0, sub, m, res.success, usize::MAX as nat);
            assert(run_result_shape(sub0, sub, m, res.success, usize::MAX as nat));
        }
        if res.success {
            if !sub.env.call.is_static() {
                self.state = sub.state;
            }
            self.append_logs(res.logs);
            self.return_data = res.result.dup();
            let r = CallResult { success: Bytes32::one(), result: res.result };
            proof {
                let m = choose|m: ExecutionContext|
                    #[trigger] run_result_shape(sub0, sub, m, true, usize::MAX as nat);
                assert(call_outcome_shape(*old(self), *self, sub0.env.call, r, sub0, sub, true, m));
            }
            r
        } else {
            self.return_data = res.result.dup();
            let r = CallResult { success: Bytes32::zero(), result: res.result };
            proof {
                let m = choose|m: ExecutionContext|
                    #[trigger] run_result_shape(sub0, sub, m, false, usize::MAX as nat);
                assert(call_outcome_shape(*old(self), *self, sub0.env.call, r, sub0, sub, false, m));
            }
            r
        }
    }

    /// Appends the log records a successful sub-call emitted.
    fn append_logs(&mut self, logs: Vec<Log>)
        ensures
            *final(self) == (ExecutionContext { logs: final(self).logs, ..*old(self) }),
            final(self).logs@.len() == old(self).logs@.len() + logs@.len(),
            final(self).logs@.take(old(self).logs@.len() as int) == old(self).logs@,
    {
        let mut v = logs;
        let n = v.len();
        let mut k: usize = 0;
        let ghost l0 = self.logs@;
        while k < n
            invariant
                k <= n,
                v@.len() == n - k,
                self.logs@.len() == l0.len() + k,
                self.logs@.take(l0.len() as int) =~= l0,
                *self == (ExecutionContext { logs: self.logs, ..*old(self) }),
            decreases n - k,
        {
            let item = v.remove(0);
            proof {
                assert(v@.len() == n - k - 1);
            }
            self.logs.push(item);
            proof {
                assert(self.logs@.take(l0.len() as int) =~= l0);
            }
            k += 1;
        }
    }

    /// CREATE's working half: moves the value, runs the initialization
    /// code against a copy of the world state, and on success installs
    /// the returned bytes as the new account's code. On failure the
    /// parent's state and logs are exactly the pre-call ones.
    pub fn create_call(&mut self, address: Address, value: Bytes32, code: Bytes) -> (r:
        CallResult)
        requires
            ctx_wf(*old(self)),
            old(self).depth >= 1,
        ensures
            ctx_wf(*final(self)),
            *final(self) == (ExecutionContext {
                state: final(self).state,
                return_data: final(self).return_data,
                logs: final(self).logs,
                ..*old(self)
            }),
            r.success@.len() == 32,
            be_val(r.success@) <= 1,
            be_val(r.success@) == 0 ==> final(self).state == old(self).state && final(self).logs
                == old(self).logs,
            r.result@ == final(self).return_data@,
            be_val(r.success@) == 1 ==> {
                &&& final(self).state.code_of(address@) == r.result@
                &&& final(self).state.balance_of(address@) == value.val()
                &&& final(self).state.nonce_of(address@) == 0
                &&& (forall|k: Seq<u8>|
                    #[trigger] final(self).state.slot_of(address@, k)
                        == crate::state::zero_word())
            },
            (code@.len() == 0 && (value.val() == 0 || old(self).state.balance_of(old(self).target@)
                >= value.val())) ==> {
                &&& be_val(r.success@) == 1
                &&& r.result@.len() == 0
                &&& ((address@ != old(self).target@ && value.val() > 0) ==> final(self).state.balance_of(old(self).target@) == old(self).state.balance_of(old(self).target@) - value.val())
                &&& (forall|a: Seq<u8>|
                    a != address@ && a != old(self).target@ ==> #[trigger] final(self).state.balance_of(a) == old(self).state.balance_of(a))
                &&& (forall|a: Seq<u8>|
                    a != address@ ==> #[trigger] final(self).state.code_of(a) == old(self).state.code_of(a))
            },
        decreases old(self).depth, 0nat, 0int,
    {
        let mut child_state = self.state.snapshot();
        match child_state.transfer(&self.target, &address, &value) {
            Err(_) => {
                self.return_data = Bytes::new();
                return CallResult { success: Bytes32::zero(), result: Bytes::new() };
            },
            Ok(()) => {},
        }
        if code.len() > usize::MAX - 34 {
            self.return_data = Bytes::new();
            return CallResult { success: Bytes32::zero(), result: Bytes::new() };
        }
        if code.is_empty() {
            child_state.create(&address, Bytes::new(), &value);
            self.state = child_state;
            self.return_data = Bytes::new();
            return CallResult { success: Bytes32::one(), result: Bytes::new() };
        }
        let call = Call::new(
            self.target.dup(),
            address.dup(),
            self.env.call.originator.dup(),
            self.env.call.gas_price.dup(),
            Bytes32::zero(),
            address.dup(),
            Bytes::new(),
            value.dup(),
            false,
        );
        let target = address.dup();
        let block = self.env.block.dup();
        let mut sub = ExecutionContext {
            env: Env::new(call, block),
            target,
            code,
            pc: 0,
            stack: Stack::new(),
            state: child_state,
            memory: Memory::new(),
            gas: 0,
            return_data: Bytes::new(),
            logs: Vec::new(),
            stopped: false,
            to_delete: Vec::new(),
            depth: self.depth - 1,
        };
        let res = sub.run(usize::MAX);
        if res.success {
            let mut adopted = sub.state;
            adopted.create(&address, res.result.dup(), &value);
            self.state = adopted;
            self.append_logs(res.logs);
            self.return_data = res.result.dup();
            CallResult { success: Bytes32::one(), result: res.result }
        } else {
            self.return_data = res.result.dup();
            CallResult { success: Bytes32::zero(), result: res.result }
        }
    }

    /// CREATE: derives the new address from the creator and its nonce,
    /// runs the initialization code, and pushes the new address on
    /// success and zero on failure.
    fn do_create(&mut self) -> (c: ControlFlow)
        requires
            ctx_wf(*old(self)),
            old(self).pc < old(self).code@.len(),
        ensures
            ctx_wf(*final(self)),
            same_but_call(*old(self), *final(self)),
            final(self).gas >= old(self).gas,
            c is Continue || c is Revert,
            (c is Continue) <==> create_args_ok(*old(self)),
            c is Revert ==> final(self).state == old(self).state && final(self).logs == old(self).logs,
        decreases old(self).depth, 0nat, 1int,
    {
        proof {
            old(self).stack.lemma_wf();
        }
        let value = match self.stack.pop() {
            Ok(w) => w,
            Err(_) => {
                return ControlFlow::Revert;
            },
        };
        let off = match self.pop_usize() {
            Ok(v) => v,
            Err(_) => {
                return ControlFlow::Revert;
            },
        };
        let sz = match self.pop_usize() {
            Ok(v) => v,
            Err(_) => {
                return ControlFlow::Revert;
            },
        };
        if self.env.call.is_static() && !value.is_zero() {
            return ControlFlow::Revert;
        }
        let bal = self.state.balance(&self.target);
        if bal.lt_word(&value) {
            return ControlFlow::Revert;
        }
        match self.span_end(off, sz) {
            Some(_) => {},
            None => {
                return ControlFlow::Revert;
            },
        }
        if self.depth == 0 {
            return self.push_step(Bytes32::zero());
        }
        let data = self.memory.load(off, sz);
        // The created address: keccak of the RLP of creator and nonce.
        let nonce = self.state.nonce(&self.target);
        self.target.wf_facts();
        let mut payload = crate::utils::rlp_encode(self.target.as_slice());
        nonce.wf_facts();
        let mut nonce_rlp = crate::utils::rlp_encode(nonce.as_slice());
        payload.append(&mut nonce_rlp);
        let digest = crate::keccak::keccak256_of(payload.as_slice());
        let created = Address::from_slice(digest.as_slice());
        let res = self.create_call(created.dup(), value, data);
        if res.success.is_zero() {
            self.push_step(Bytes32::zero())
        } else {
            self.push_step(Bytes32::from_address(&created))
        }
    }

    /// SELFDESTRUCT: moves the whole balance to the popped address and
    /// queues the current contract for deletion at frame end; forbidden
    /// in a static frame.
    fn do_selfdestruct(&mut self) -> (c: ControlFlow)
        requires
            ctx_wf(*old(self)),
            old(self).pc < old(self).code@.len(),
        ensures
            ctx_wf(*final(self)),
            *final(self) == (ExecutionContext {
                stack: final(self).stack,
                state: final(self).state,
                to_delete: final(self).to_delete,
                pc: final(self).pc,
                ..*old(self)
            }),
            c is Continue || c is Revert,
            (c is Continue) <==> (old(self).stack@.len() >= 1 && !old(self).env.call.view_only),
            c is Revert ==> final(self).state == old(self).state && final(self).logs == old(self).logs,
            final(self).logs == old(self).logs,
            c is Continue ==> {
                let beneficiary = old(self).stack@.last().skip(12);
                &&& old(self).stack@.len() >= 1
                &&& !old(self).env.call.view_only
                &&& final(self).stack@ == old(self).stack@.drop_last()
                &&& final(self).to_delete@.len() == old(self).to_delete@.len() + 1
                &&& (beneficiary != old(self).target@ ==> final(self).state.balance_of(
                    old(self).target@,
                ) == 0)
                &&& final(self).pc == old(self).pc + 1
            },
    {
        let beneficiary = match self.pop_address() {
            Ok(a) => a,
            Err(_) => {
                return ControlFlow::Revert;
            },
        };
        if self.env.call.is_static() {
            return ControlFlow::Revert;
        }
        let bal = self.state.balance(&self.target);
        match self.state.transfer(&self.target, &beneficiary, &bal) {
            Ok(()) => {},
            Err(_) => {
                return ControlFlow::Revert;
            },
        }
        self.selfdestruct_queue();
        self.pc = self.pc + 1;
        proof {
            crate::types::lemma_word_mod_facts();
        }
        ControlFlow::Continue
    }
}

} // verus!

verus! {

impl ExecutionContext {
    /// Steps past the instruction on success; reverts the frame on error.
    fn fin(&mut self, r: Result<(), VmError>) -> (c: ControlFlow)
        requires
            ctx_wf(*old(self)),
            old(self).pc < old(self).code@.len(),
        ensures
            *final(self) == (ExecutionContext { pc: final(self).pc, ..*old(self) }),
            (c is Continue) == (r is Ok),
            (c is Revert) == (r is Err),
            r is Ok ==> final(self).pc == old(self).pc + 1,
            r is Err ==> final(self).pc == old(self).pc,
    {
        match r {
            Ok(()) => {
                self.pc = self.pc + 1;
                ControlFlow::Continue
            },
            Err(_) => ControlFlow::Revert,
        }
    }

    /// Runs the frame: decodes and executes instructions until the code
    /// ends, a terminating instruction runs, an error reverts the frame,
    /// or the step budget `fuel` is exhausted (which counts as failure).
    /// On success the queued self-destructions are committed. The result
    /// reports the success bit, the final stack top-first, the emitted
    /// logs, and the output buffer.
    /// Runs the frame: decodes and executes instructions until the code
    /// ends, a terminating instruction runs, an error reverts the frame,
    /// or the step budget `fuel` is exhausted (which counts as failure).
    /// The whole execution is fixed by `run_result_shape`: the final
    /// frame is reached from the initial one through the per-instruction
    /// step relation, the success bit is that run's outcome, and the
    /// queued self-destructions are committed exactly on success. The
    /// result reports the success bit, the final stack top-first, the
    /// emitted logs (discarded on failure), and the output buffer.
    pub fn run(&mut self, fuel: usize) -> (r: EvmResult)
        requires
            ctx_wf(*old(self)),
        ensures
            ctx_wf(*final(self)),
            final(self).depth == old(self).depth,
            final(self).code == old(self).code,
            final(self).target == old(self).target,
            final(self).env.block == old(self).env.block,
            same_call_mod_result(old(self).env.call, final(self).env.call),
            final(self).gas >= old(self).gas,
            r.result@ == final(self).env.call.result@,
            r.stack@.len() == final(self).stack@.len(),
            r.stack@.len() <= 1024,
            r.success ==> r.logs@.len() == final(self).logs@.len(),
            !r.success ==> r.logs@.len() == 0,
            forall|i: int|
                0 <= i < r.stack@.len() ==> r.stack@[i]@ == final(self).stack@[final(self).stack@.len() - 1 - i],
            exists|mid: ExecutionContext|
                #[trigger] run_result_shape(*old(self), *final(self), mid, r.success, fuel as nat),
        decreases old(self).depth, fuel, 4int,
    {
        let mut success: bool = true;
        let mut fl: usize = fuel;
        while success && !self.stopped && self.pc < self.code.len() && fl > 0
            invariant
                ctx_wf(*self),
                self.depth == old(self).depth,
                self.code == old(self).code,
                self.target == old(self).target,
                self.env.block == old(self).env.block,
                same_call_mod_result(old(self).env.call, self.env.call),
                self.gas >= old(self).gas,
                fl <= fuel,
                (success && !self.stopped) ==> (forall|post: ExecutionContext, flag: bool|
                    #[trigger] run_steps(*self, post, flag, fl as nat) ==> run_steps(
                        *old(self),
                        post,
                        flag,
                        fuel as nat,
                    )),
                (success && self.stopped) ==> run_steps(*old(self), *self, true, fuel as nat),
                !success ==> run_steps(*old(self), *self, false, fuel as nat),
            decreases old(self).depth, fl, 4int,
        {
            let b = self.code.read_byte(self.pc);
            let ghost pre_step = *self;
            let ghost fl0 = fl as nat;
            fl = fl - 1;
            match Opcode::try_from(b) {
                None => {
                    // An unassigned byte reverts the frame.
                    proof {
                        assert(run_steps(pre_step, pre_step, false, fl0));
                    }
                    success = false;
                },
                Some(op) => {
                    let c = op.execute(self);
                    let ghost mid_exec = *self;
                    match c {
                        ControlFlow::Continue => {
                            proof {
                                assert forall|post: ExecutionContext, flag: bool|
                                    #[trigger] run_steps(*self, post, flag, fl as nat)
                                        implies run_steps(
                                        *old(self),
                                        post,
                                        flag,
                                        fuel as nat,
                                    ) by {
                                    lemma_run_steps_cons(
                                        pre_step,
                                        *self,
                                        post,
                                        flag,
                                        fl as nat,
                                    );
                                    assert(run_steps(pre_step, post, flag, fl0));
                                }
                            }
                        },
                        ControlFlow::Stop => {
                            self.stopped = true;
                            proof {
                                assert(*self == (ExecutionContext {
                                    stopped: true,
                                    ..mid_exec
                                }));
                                assert(step_spec(op, pre_step, mid_exec, c) && (flag_of(c)
                                    && *self == (ExecutionContext {
                                    stopped: true,
                                    ..mid_exec
                                })));
                                assert(run_steps(pre_step, *self, true, fl0));
                            }
                        },
                        ControlFlow::Return => {
                            self.stopped = true;
                            proof {
                                assert(*self == (ExecutionContext {
                                    stopped: true,
                                    ..mid_exec
                                }));
                                assert(step_spec(op, pre_step, mid_exec, c));
                                assert(run_steps(pre_step, *self, true, fl0));
                            }
                        },
                        ControlFlow::Revert => {
                            proof {
                                assert(step_spec(op, pre_step, mid_exec, c));
                                assert(run_steps(pre_step, *self, false, fl0));
                            }
                            success = false;
                        },
                    }
                },
            }
        }
        if success && !self.stopped && self.pc < self.code.len() {
            // The step budget ran out before the program finished.
            proof {
                assert(fl == 0);
                assert(run_steps(*self, *self, false, fl as nat));
            }
            success = false;
        }
        proof {
            if success && !self.stopped {
                assert(run_steps(*self, *self, true, fl as nat));
            }
        }
        let ghost mid_ctx = *self;
        let ghost flag_final = success;
        proof {
            assert(run_steps(*old(self), mid_ctx, flag_final, fuel as nat));
        }
        if success {
            // Commit the queued self-destructions.
            let n = self.to_delete.len();
            let mut k: usize = 0;
            proof {
                assert(mid_ctx.to_delete@.take(0) =~= Seq::<Address>::empty());
            }
            while k < n
                invariant
                    k <= n,
                    n == mid_ctx.to_delete@.len(),
                    ctx_wf(*self),
                    *self == (ExecutionContext { state: self.state, ..mid_ctx }),
                    forall|a: Seq<u8>|
                        queued_for_deletion(mid_ctx.to_delete@.take(k as int), a)
                            ==> #[trigger] self.state.balance_of(a) == 0
                            && self.state.nonce_of(a) == 0 && self.state.code_of(a).len()
                            == 0,
                    forall|a: Seq<u8>, key: Seq<u8>|
                        queued_for_deletion(mid_ctx.to_delete@.take(k as int), a)
                            ==> #[trigger] self.state.slot_of(a, key)
                            == crate::state::zero_word(),
                    forall|a: Seq<u8>|
                        !queued_for_deletion(mid_ctx.to_delete@.take(k as int), a)
                            ==> #[trigger] self.state.balance_of(a)
                            == mid_ctx.state.balance_of(a) && self.state.nonce_of(a)
                            == mid_ctx.state.nonce_of(a) && self.state.code_of(a)
                            == mid_ctx.state.code_of(a),
                    forall|a: Seq<u8>, key: Seq<u8>|
                        !queued_for_deletion(mid_ctx.to_delete@.take(k as int), a)
                            ==> #[trigger] self.state.slot_of(a, key)
                            == mid_ctx.state.slot_of(a, key),
                decreases n - k,
            {
                let a = self.to_delete[k].dup();
                let ghost st0 = self.state;
                self.state.delete(&a);
                proof {
                    lemma_deletion_prefix_extends(mid_ctx.to_delete@, k as int, a@);
                    let lk1 = mid_ctx.to_delete@.take(k + 1);
                    assert forall|x: Seq<u8>|
                        queued_for_deletion(lk1, x) implies #[trigger] self.state.balance_of(x)
                        == 0 && self.state.nonce_of(x) == 0 && self.state.code_of(x).len()
                        == 0 by {
                        if x != a@ {
                            assert(queued_for_deletion(mid_ctx.to_delete@.take(k as int), x));
                            assert(st0.balance_of(x) == 0);
                            assert(self.state.balance_of(x) == st0.balance_of(x));
                        }
                    }
                    assert forall|x: Seq<u8>, key: Seq<u8>|
                        queued_for_deletion(lk1, x) implies #[trigger] self.state.slot_of(
                        x,
                        key,
                    ) == crate::state::zero_word() by {
                        if x != a@ {
                            assert(queued_for_deletion(mid_ctx.to_delete@.take(k as int), x));
                            assert(st0.slot_of(x, key) == crate::state::zero_word());
                            assert(self.state.slot_of(x, key) == st0.slot_of(x, key));
                        }
                    }
                    assert forall|x: Seq<u8>|
                        !queued_for_deletion(lk1, x) implies #[trigger] self.state.balance_of(
                        x,
                    ) == mid_ctx.state.balance_of(x) && self.state.nonce_of(x)
                        == mid_ctx.state.nonce_of(x) && self.state.code_of(x)
                        == mid_ctx.state.code_of(x) by {
                        assert(!queued_for_deletion(mid_ctx.to_delete@.take(k as int), x));
                        assert(x != a@);
                        assert(self.state.balance_of(x) == st0.balance_of(x));
                        assert(self.state.nonce_of(x) == st0.nonce_of(x));
                        assert(self.state.code_of(x) == st0.code_of(x));
                    }
                    assert forall|x: Seq<u8>, key: Seq<u8>|
                        !queued_for_deletion(lk1, x) implies #[trigger] self.state.slot_of(
                        x,
                        key,
                    ) == mid_ctx.state.slot_of(x, key) by {
                        assert(!queued_for_deletion(mid_ctx.to_delete@.take(k as int), x));
                        assert(x != a@);
                        assert(self.state.slot_of(x, key) == st0.slot_of(x, key));
                    }
                }
                k += 1;
            }
            proof {
                assert(mid_ctx.to_delete@.take(n as int) =~= mid_ctx.to_delete@);
                assert(deletions_committed(mid_ctx, self.state));
            }
        }
        proof {
            self.stack.lemma_wf();
        }
        let items = self.stack.deref_items();
        // A failed frame discards its log emissions.
        let logs = if success {
            dup_logs(&self.logs)
        } else {
            Vec::new()
        };
        let result = self.env.call.result();
        let r = EvmResult { stack: items, logs, success, result };
        proof {
            assert(run_result_shape(*old(self), *self, mid_ctx, r.success, fuel as nat));
        }
        r
    }
}

impl ExecutionContext {
    /// The arithmetic instructions, dispatched by family.
    fn exec_arith_family(&mut self, op: Opcode) -> (c: ControlFlow)
        requires
            ctx_wf(*old(self)),
            old(self).pc < old(self).code@.len(),
            op is ADD || op is MUL || op is SUB || op is DIV || op is SDIV || op is MOD
                || op is SMOD || op is ADDMOD || op is MULMOD || op is EXP
                || op is SIGNEXTEND,
        ensures
            ctx_wf(*final(self)),
            final(self).depth == old(self).depth,
            final(self).code == old(self).code,
            final(self).target == old(self).target,
            final(self).env.block == old(self).env.block,
            same_call_mod_result(old(self).env.call, final(self).env.call),
            final(self).gas >= old(self).gas,
            step_spec(op, *old(self), *final(self), c),
    {
        self.charge(op.fix_gas());
        let r = match op {
            Opcode::ADDMOD | Opcode::MULMOD => self.op_modmath(op),
            Opcode::EXP => self.op_exp(),
            Opcode::SIGNEXTEND => self.op_signextend(),
            _ => self.op_arith(op),
        };
        self.fin(r)
    }

    /// The comparison, bitwise, byte-selection, shift and POP
    /// instructions, dispatched by family.
    fn exec_bit_family(&mut self, op: Opcode) -> (c: ControlFlow)
        requires
            ctx_wf(*old(self)),
            old(self).pc < old(self).code@.len(),
            op is LT || op is GT || op is SLT || op is SGT || op is EQ || op is ISZERO
                || op is AND || op is OR || op is XOR || op is NOT || op is BYTE || op is SHL
                || op is SHR || op is SAR || op is POP,
        ensures
            ctx_wf(*final(self)),
            final(self).depth == old(self).depth,
            final(self).code == old(self).code,
            final(self).target == old(self).target,
            final(self).env.block == old(self).env.block,
            same_call_mod_result(old(self).env.call, final(self).env.call),
            final(self).gas >= old(self).gas,
            step_spec(op, *old(self), *final(self), c),
    {
        self.charge(op.fix_gas());
        let r = match op {
            Opcode::ISZERO => self.op_iszero(),
            Opcode::AND | Opcode::OR | Opcode::XOR => self.op_bitwise(op),
            Opcode::NOT => self.op_not(),
            Opcode::BYTE => self.op_byte(),
            Opcode::SHL | Opcode::SHR | Opcode::SAR => self.op_shift(op),
            Opcode::POP => self.op_pop(),
            _ => self.op_cmp(op),
        };
        self.fin(r)
    }

    /// PUSHn: the immediate is read and the counter advances past it.
    fn exec_push_op(&mut self, op: Opcode, n: usize) -> (c: ControlFlow)
        requires
            ctx_wf(*old(self)),
            old(self).pc < old(self).code@.len(),
            push_count(op) == n,
            1 <= n <= 32,
        ensures
            ctx_wf(*final(self)),
            final(self).depth == old(self).depth,
            final(self).code == old(self).code,
            final(self).target == old(self).target,
            final(self).env.block == old(self).env.block,
            same_call_mod_result(old(self).env.call, final(self).env.call),
            final(self).gas >= old(self).gas,
            step_spec(op, *old(self), *final(self), c),
    {
        self.charge(op.fix_gas());
        ctl(self.op_push(n))
    }

    /// DUPn.
    fn exec_dup_op(&mut self, op: Opcode, n: usize) -> (c: ControlFlow)
        requires
            ctx_wf(*old(self)),
            old(self).pc < old(self).code@.len(),
            push_count(op) == 0,
            dup_index(op) == n,
            1 <= n <= 16,
        ensures
            ctx_wf(*final(self)),
            final(self).depth == old(self).depth,
            final(self).code == old(self).code,
            final(self).target == old(self).target,
            final(self).env.block == old(self).env.block,
            same_call_mod_result(old(self).env.call, final(self).env.call),
            final(self).gas >= old(self).gas,
            step_spec(op, *old(self), *final(self), c),
    {
        self.charge(op.fix_gas());
        let r = self.op_dup(n);
        self.fin(r)
    }

    /// SWAPn.
    fn exec_swap_op(&mut self, op: Opcode, n: usize) -> (c: ControlFlow)
        requires
            ctx_wf(*old(self)),
            old(self).pc < old(self).code@.len(),
            push_count(op) == 0,
            dup_index(op) == 0,
            swap_index(op) == n,
            1 <= n <= 16,
        ensures
            ctx_wf(*final(self)),
            final(self).depth == old(self).depth,
            final(self).code == old(self).code,
            final(self).target == old(self).target,
            final(self).env.block == old(self).env.block,
            same_call_mod_result(old(self).env.call, final(self).env.call),
            final(self).gas >= old(self).gas,
            step_spec(op, *old(self), *final(self), c),
    {
        self.charge(op.fix_gas());
        let r = self.op_swap(n);
        self.fin(r)
    }

    /// LOGn.
    fn exec_log_op(&mut self, op: Opcode, n: usize) -> (c: ControlFlow)
        requires
            ctx_wf(*old(self)),
            old(self).pc < old(self).code@.len(),
            push_count(op) == 0,
            dup_index(op) == 0,
            swap_index(op) == 0,
            log_count(op) == n,
            n <= 4,
        ensures
            ctx_wf(*final(self)),
            final(self).depth == old(self).depth,
            final(self).code == old(self).code,
            final(self).target == old(self).target,
            final(self).env.block == old(self).env.block,
            same_call_mod_result(old(self).env.call, final(self).env.call),
            final(self).gas >= old(self).gas,
            step_spec(op, *old(self), *final(self), c),
    {
        self.charge(op.fix_gas());
        let r = self.op_log(n);
        self.fin(r)
    }

    /// SHA3.
    fn exec_sha3_op(&mut self, op: Opcode) -> (c: ControlFlow)
        requires
            ctx_wf(*old(self)),
            old(self).pc < old(self).code@.len(),
            op is SHA3,
        ensures
            ctx_wf(*final(self)),
            final(self).depth == old(self).depth,
            final(self).code == old(self).code,
            final(self).target == old(self).target,
            final(self).env.block == old(self).env.block,
            same_call_mod_result(old(self).env.call, final(self).env.call),
            final(self).gas >= old(self).gas,
            step_spec(op, *old(self), *final(self), c),
    {
        self.charge(op.fix_gas());
        let r = self.op_sha3();
        self.fin(r)
    }

    /// The environment reads that take nothing from the stack: caller,
    /// value, price and block data.
    fn exec_env_a(&mut self, op: Opcode) -> (c: ControlFlow)
        requires
            ctx_wf(*old(self)),
            old(self).pc < old(self).code@.len(),
            op is ADDRESS || op is ORIGIN || op is CALLER || op is CALLVALUE || op is GASPRICE
                || op is TIMESTAMP || op is GASLIMIT || op is CHAINID || op is NUMBER
                || op is COINBASE,
        ensures
            ctx_wf(*final(self)),
            final(self).depth == old(self).depth,
            final(self).code == old(self).code,
            final(self).target == old(self).target,
            final(self).env.block == old(self).env.block,
            same_call_mod_result(old(self).env.call, final(self).env.call),
            final(self).gas >= old(self).gas,
            step_spec(op, *old(self), *final(self), c),
    {
        self.charge(op.fix_gas());
        let w = match op {
            Opcode::ADDRESS => Bytes32::from_address(&self.target),
            Opcode::ORIGIN => Bytes32::from_address(&self.env.call.originator),
            Opcode::CALLER => Bytes32::from_address(&self.env.call.sender),
            Opcode::CALLVALUE => self.env.call.value.dup(),
            Opcode::GASPRICE => self.env.call.gas_price.dup(),
            Opcode::TIMESTAMP => self.env.block.timestamp.dup(),
            Opcode::GASLIMIT => self.env.block.gas_limit.dup(),
            Opcode::CHAINID => Bytes32::from_u64(self.env.block.chain_id),
            Opcode::NUMBER => match self.env.block.number {
                Some(n) => Bytes32::from_u64(n),
                None => Bytes32::zero(),
            },
            _ => match &self.env.block.beneficiary {
                Some(a) => Bytes32::from_address(a),
                None => Bytes32::zero(),
            },
        };
        let c = self.push_step(w);
        proof {
            if c is Continue {
                assert(final(self).stack@.drop_last() =~= old(self).stack@);
            }
        }
        c
    }

    /// The remaining environment reads: randomness, fees, balances, the
    /// program counter, gas, and the buffer sizes.
    fn exec_env_b(&mut self, op: Opcode) -> (c: ControlFlow)
        requires
            ctx_wf(*old(self)),
            old(self).pc < old(self).code@.len(),
            op is PREVRANDAO || op is BASEFEE || op is SELFBALANCE || op is PC || op is GAS
                || op is MSIZE || op is CALLDATASIZE || op is CODESIZE
                || op is RETURNDATASIZE,
        ensures
            ctx_wf(*final(self)),
            final(self).depth == old(self).depth,
            final(self).code == old(self).code,
            final(self).target == old(self).target,
            final(self).env.block == old(self).env.block,
            same_call_mod_result(old(self).env.call, final(self).env.call),
            final(self).gas >= old(self).gas,
            step_spec(op, *old(self), *final(self), c),
    {
        self.charge(op.fix_gas());
        let w = match op {
            Opcode::PREVRANDAO => match &self.env.block.prev_randao {
                Some(v) => v.dup(),
                None => match &self.env.block.difficulty {
                    Some(v) => v.dup(),
                    None => Bytes32::zero(),
                },
            },
            Opcode::BASEFEE => match &self.env.block.base_fee {
                Some(v) => v.dup(),
                None => Bytes32::zero(),
            },
            Opcode::SELFBALANCE => self.state.balance(&self.target),
            Opcode::PC => Bytes32::from_u64(self.pc as u64),
            Opcode::GAS => {
                let ghost pre = *self;
                let ones = Bytes32::ones();
                proof {
                    crate::types::lemma_word_mod_facts();
                }
                ones
            },
            Opcode::MSIZE => {
                if self.memory.len() > usize::MAX - 31 {
                    return ControlFlow::Revert;
                }
                let sz = self.memory.size();
                Bytes32::from_u64(sz as u64)
            },
            Opcode::CALLDATASIZE => {
                if self.env.call.data.len() > usize::MAX - 31 {
                    return ControlFlow::Revert;
                }
                let ds = self.env.call.data_size();
                Bytes32::from_u64(ds as u64)
            },
            Opcode::CODESIZE => Bytes32::from_u64(self.code.len() as u64),
            _ => Bytes32::from_u64(self.return_data.len() as u64),
        };
        let c = self.push_step(w);
        proof {
            if c is Continue {
                assert(final(self).stack@.drop_last() =~= old(self).stack@);
            }
        }
        c
    }

    /// BALANCE, EXTCODESIZE, EXTCODEHASH and BLOCKHASH: one word popped,
    /// one answer pushed.
    fn exec_addr_query(&mut self, op: Opcode) -> (c: ControlFlow)
        requires
            ctx_wf(*old(self)),
            old(self).pc < old(self).code@.len(),
            op is BALANCE || op is EXTCODESIZE || op is EXTCODEHASH || op is BLOCKHASH,
        ensures
            ctx_wf(*final(self)),
            final(self).depth == old(self).depth,
            final(self).code == old(self).code,
            final(self).target == old(self).target,
            final(self).env.block == old(self).env.block,
            same_call_mod_result(old(self).env.call, final(self).env.call),
            final(self).gas >= old(self).gas,
            step_spec(op, *old(self), *final(self), c),
    {
        self.charge(op.fix_gas());
        let a = match self.pop_address() {
            Ok(a) => a,
            Err(_) => {
                return ControlFlow::Revert;
            },
        };
        let w = match op {
            Opcode::BALANCE => self.state.balance(&a),
            Opcode::EXTCODESIZE => {
                let sz = self.state.code_size(&a);
                Bytes32::from_u64(sz as u64)
            },
            Opcode::EXTCODEHASH => self.state.code_hash(&a),
            _ => Bytes32::zero(),
        };
        let c = self.push_step(w);
        proof {
            old(self).stack.lemma_wf();
            assert(c is Continue);
            assert(final(self).stack@.drop_last() =~= old(self).stack@.drop_last());
        }
        c
    }

    /// CALLDATALOAD.
    fn exec_calldataload(&mut self, op: Opcode) -> (c: ControlFlow)
        requires
            ctx_wf(*old(self)),
            old(self).pc < old(self).code@.len(),
            op is CALLDATALOAD,
        ensures
            ctx_wf(*final(self)),
            final(self).depth == old(self).depth,
            final(self).code == old(self).code,
            final(self).target == old(self).target,
            final(self).env.block == old(self).env.block,
            same_call_mod_result(old(self).env.call, final(self).env.call),
            final(self).gas >= old(self).gas,
            step_spec(op, *old(self), *final(self), c),
    {
        self.charge(op.fix_gas());
        let r = self.op_calldataload();
        self.fin(r)
    }

    /// The COPY instructions: the source bytes land in memory with zero
    /// fill past the source's end.
    fn exec_copy(&mut self, op: Opcode) -> (c: ControlFlow)
        requires
            ctx_wf(*old(self)),
            old(self).pc < old(self).code@.len(),
            op is CALLDATACOPY || op is CODECOPY || op is RETURNDATACOPY
                || op is EXTCODECOPY,
        ensures
            ctx_wf(*final(self)),
            final(self).depth == old(self).depth,
            final(self).code == old(self).code,
            final(self).target == old(self).target,
            final(self).env.block == old(self).env.block,
            same_call_mod_result(old(self).env.call, final(self).env.call),
            final(self).gas >= old(self).gas,
            step_spec(op, *old(self), *final(self), c),
    {
        self.charge(op.fix_gas());
        let r = match op {
            Opcode::CALLDATACOPY => {
                let src = self.env.call.data.dup();
                self.copy_step(&src, false)
            },
            Opcode::CODECOPY => {
                let src = self.code.dup();
                self.copy_step(&src, true)
            },
            Opcode::RETURNDATACOPY => {
                let src = self.return_data.dup();
                self.copy_step(&src, true)
            },
            _ => {
                match self.pop_address() {
                    Ok(a) => {
                        let src = self.state.code(&a);
                        self.copy_step(&src, false)
                    },
                    Err(e) => Err(e),
                }
            },
        };
        self.fin(r)
    }

    /// MLOAD, MSTORE and MSTORE8; these charge per expanded byte instead
    /// of a flat base cost.
    fn exec_mem(&mut self, op: Opcode) -> (c: ControlFlow)
        requires
            ctx_wf(*old(self)),
            old(self).pc < old(self).code@.len(),
            op is MLOAD || op is MSTORE || op is MSTORE8,
        ensures
            ctx_wf(*final(self)),
            final(self).depth == old(self).depth,
            final(self).code == old(self).code,
            final(self).target == old(self).target,
            final(self).env.block == old(self).env.block,
            same_call_mod_result(old(self).env.call, final(self).env.call),
            final(self).gas >= old(self).gas,
            step_spec(op, *old(self), *final(self), c),
    {
        let r = match op {
            Opcode::MLOAD => self.op_mload(),
            Opcode::MSTORE => self.op_mstore(),
            _ => self.op_mstore8(),
        };
        self.fin(r)
    }

    /// SLOAD and SSTORE.
    fn exec_storage(&mut self, op: Opcode) -> (c: ControlFlow)
        requires
            ctx_wf(*old(self)),
            old(self).pc < old(self).code@.len(),
            op is SLOAD || op is SSTORE,
        ensures
            ctx_wf(*final(self)),
            final(self).depth == old(self).depth,
            final(self).code == old(self).code,
            final(self).target == old(self).target,
            final(self).env.block == old(self).env.block,
            same_call_mod_result(old(self).env.call, final(self).env.call),
            final(self).gas >= old(self).gas,
            step_spec(op, *old(self), *final(self), c),
    {
        self.charge(op.fix_gas());
        let r = match op {
            Opcode::SLOAD => self.op_sload(),
            _ => self.op_sstore(),
        };
        self.fin(r)
    }

    /// JUMP and JUMPI: the counter moves to the validated target.
    fn exec_jump(&mut self, op: Opcode) -> (c: ControlFlow)
        requires
            ctx_wf(*old(self)),
            old(self).pc < old(self).code@.len(),
            op is JUMP || op is JUMPI,
        ensures
            ctx_wf(*final(self)),
            final(self).depth == old(self).depth,
            final(self).code == old(self).code,
            final(self).target == old(self).target,
            final(self).env.block == old(self).env.block,
            same_call_mod_result(old(self).env.call, final(self).env.call),
            final(self).gas >= old(self).gas,
            step_spec(op, *old(self), *final(self), c),
    {
        self.charge(op.fix_gas());
        let r = match op {
            Opcode::JUMP => self.op_jump(),
            _ => self.op_jumpi(),
        };
        ctl(r)
    }

    /// JUMPDEST: a charged no-op.
    fn exec_jumpdest(&mut self, op: Opcode) -> (c: ControlFlow)
        requires
            ctx_wf(*old(self)),
            old(self).pc < old(self).code@.len(),
            op is JUMPDEST,
        ensures
            ctx_wf(*final(self)),
            final(self).depth == old(self).depth,
            final(self).code == old(self).code,
            final(self).target == old(self).target,
            final(self).env.block == old(self).env.block,
            same_call_mod_result(old(self).env.call, final(self).env.call),
            final(self).gas >= old(self).gas,
            step_spec(op, *old(self), *final(self), c),
    {
        self.charge(op.fix_gas());
        self.step_pc();
        ControlFlow::Continue
    }

    /// STOP: the frame finishes successfully.
    fn exec_stop(&mut self, op: Opcode) -> (c: ControlFlow)
        requires
            ctx_wf(*old(self)),
            old(self).pc < old(self).code@.len(),
            op is STOP,
        ensures
            ctx_wf(*final(self)),
            final(self).depth == old(self).depth,
            final(self).code == old(self).code,
            final(self).target == old(self).target,
            final(self).env.block == old(self).env.block,
            same_call_mod_result(old(self).env.call, final(self).env.call),
            final(self).gas >= old(self).gas,
            step_spec(op, *old(self), *final(self), c),
    {
        self.charge(op.fix_gas());
        self.stopped = true;
        ControlFlow::Stop
    }

    /// INVALID and the unimplemented CREATE2: the frame reverts.
    fn exec_reject(&mut self, op: Opcode) -> (c: ControlFlow)
        requires
            ctx_wf(*old(self)),
            old(self).pc < old(self).code@.len(),
            op is INVALID || op is CREATE2,
        ensures
            ctx_wf(*final(self)),
            final(self).depth == old(self).depth,
            final(self).code == old(self).code,
            final(self).target == old(self).target,
            final(self).env.block == old(self).env.block,
            same_call_mod_result(old(self).env.call, final(self).env.call),
            final(self).gas >= old(self).gas,
            step_spec(op, *old(self), *final(self), c),
    {
        self.charge(op.fix_gas());
        ControlFlow::Revert
    }

    /// RETURN and REVERT: the memory range becomes the frame's output.
    fn exec_capture(&mut self, op: Opcode) -> (c: ControlFlow)
        requires
            ctx_wf(*old(self)),
            old(self).pc < old(self).code@.len(),
            op is RETURN || op is REVERT,
        ensures
            ctx_wf(*final(self)),
            final(self).depth == old(self).depth,
            final(self).code == old(self).code,
            final(self).target == old(self).target,
            final(self).env.block == old(self).env.block,
            same_call_mod_result(old(self).env.call, final(self).env.call),
            final(self).gas >= old(self).gas,
            step_spec(op, *old(self), *final(self), c),
    {
        let r = self.op_capture_output();
        if matches!(op, Opcode::RETURN) {
            match r {
                Ok(()) => {
                    self.stopped = true;
                    ControlFlow::Return
                },
                Err(_) => ControlFlow::Revert,
            }
        } else {
            ControlFlow::Revert
        }
    }

    /// The call instructions.
    fn exec_call_family(&mut self, op: Opcode) -> (c: ControlFlow)
        requires
            ctx_wf(*old(self)),
            old(self).pc < old(self).code@.len(),
            op is CALL || op is CALLCODE || op is DELEGATECALL || op is STATICCALL,
        ensures
            ctx_wf(*final(self)),
            final(self).depth == old(self).depth,
            final(self).code == old(self).code,
            final(self).target == old(self).target,
            final(self).env.block == old(self).env.block,
            same_call_mod_result(old(self).env.call, final(self).env.call),
            final(self).gas >= old(self).gas,
            step_spec(op, *old(self), *final(self), c),
        decreases old(self).depth, 0nat, 2int,
    {
        self.charge(op.fix_gas());
        self.do_call(op)
    }

    /// CREATE.
    fn exec_create(&mut self, op: Opcode) -> (c: ControlFlow)
        requires
            ctx_wf(*old(self)),
            old(self).pc < old(self).code@.len(),
            op is CREATE,
        ensures
            ctx_wf(*final(self)),
            final(self).depth == old(self).depth,
            final(self).code == old(self).code,
            final(self).target == old(self).target,
            final(self).env.block == old(self).env.block,
            same_call_mod_result(old(self).env.call, final(self).env.call),
            final(self).gas >= old(self).gas,
            step_spec(op, *old(self), *final(self), c),
        decreases old(self).depth, 0nat, 2int,
    {
        self.charge(op.fix_gas());
        self.do_create()
    }

    /// SELFDESTRUCT.
    fn exec_selfdestruct(&mut self, op: Opcode) -> (c: ControlFlow)
        requires
            ctx_wf(*old(self)),
            old(self).pc < old(self).code@.len(),
            op is SELFDESTRUCT,
        ensures
            ctx_wf(*final(self)),
            final(self).depth == old(self).depth,
            final(self).code == old(self).code,
            final(self).target == old(self).target,
            final(self).env.block == old(self).env.block,
            same_call_mod_result(old(self).env.call, final(self).env.call),
            final(self).gas >= old(self).gas,
            step_spec(op, *old(self), *final(self), c),
    {
        self.charge(op.fix_gas());
        self.do_selfdestruct()
    }
}

impl Opcode {
    /// Executes one instruction against the frame, returning the control
    /// directive that drives the run loop. The whole transition — what is
    /// popped, pushed, written, logged or called, and when the frame
    /// reverts instead — is fixed per instruction by `step_spec`;
    /// program-level errors (stack misuse, bad jumps, static violations,
    /// unrepresentable operands) come back as Revert.
    pub fn execute(&self, ctx: &mut ExecutionContext) -> (c: ControlFlow)
        requires
            ctx_wf(*old(ctx)),
            old(ctx).pc < old(ctx).code@.len(),
        ensures
            ctx_wf(*final(ctx)),
            final(ctx).depth == old(ctx).depth,
            final(ctx).code == old(ctx).code,
            final(ctx).target == old(ctx).target,
            final(ctx).env.block == old(ctx).env.block,
            same_call_mod_result(old(ctx).env.call, final(ctx).env.call),
            final(ctx).gas >= old(ctx).gas,
            step_spec(*self, *old(ctx), *final(ctx), c),
        decreases old(ctx).depth, 0nat, 3int,
    {
        match self {
            Opcode::STOP => ctx.exec_stop(*self),
            Opcode::ADD | Opcode::MUL | Opcode::SUB | Opcode::DIV | Opcode::SDIV
                | Opcode::MOD | Opcode::SMOD | Opcode::ADDMOD | Opcode::MULMOD | Opcode::EXP
                | Opcode::SIGNEXTEND => ctx.exec_arith_family(*self),
            Opcode::LT | Opcode::GT | Opcode::SLT | Opcode::SGT | Opcode::EQ | Opcode::ISZERO
                | Opcode::AND | Opcode::OR | Opcode::XOR | Opcode::NOT | Opcode::BYTE
                | Opcode::SHL | Opcode::SHR | Opcode::SAR | Opcode::POP => ctx.exec_bit_family(
                *self,
            ),
            Opcode::SHA3 => ctx.exec_sha3_op(*self),
            Opcode::ADDRESS | Opcode::ORIGIN | Opcode::CALLER | Opcode::CALLVALUE
                | Opcode::GASPRICE | Opcode::TIMESTAMP | Opcode::GASLIMIT | Opcode::CHAINID
                | Opcode::NUMBER | Opcode::COINBASE => ctx.exec_env_a(*self),
            Opcode::PREVRANDAO | Opcode::BASEFEE | Opcode::SELFBALANCE | Opcode::PC
                | Opcode::GAS | Opcode::MSIZE | Opcode::CALLDATASIZE | Opcode::CODESIZE
                | Opcode::RETURNDATASIZE => ctx.exec_env_b(*self),
            Opcode::BALANCE | Opcode::EXTCODESIZE | Opcode::EXTCODEHASH | Opcode::BLOCKHASH
                => ctx.exec_addr_query(*self),
            Opcode::CALLDATALOAD => ctx.exec_calldataload(*self),
            Opcode::CALLDATACOPY | Opcode::CODECOPY | Opcode::RETURNDATACOPY
                | Opcode::EXTCODECOPY => ctx.exec_copy(*self),
            Opcode::MLOAD | Opcode::MSTORE | Opcode::MSTORE8 => ctx.exec_mem(*self),
            Opcode::SLOAD | Opcode::SSTORE => ctx.exec_storage(*self),
            Opcode::JUMP | Opcode::JUMPI => ctx.exec_jump(*self),
            Opcode::JUMPDEST => ctx.exec_jumpdest(*self),
            Opcode::PUSH1 => ctx.exec_push_op(*self, 1),
            Opcode::PUSH2 => ctx.exec_push_op(*self, 2),
            Opcode::PUSH3 => ctx.exec_push_op(*self, 3),
            Opcode::PUSH4 => ctx.exec_push_op(*self, 4),
            Opcode::PUSH5 => ctx.exec_push_op(*self, 5),
            Opcode::PUSH6 => ctx.exec_push_op(*self, 6),
            Opcode::PUSH7 => ctx.exec_push_op(*self, 7),
            Opcode::PUSH8 => ctx.exec_push_op(*self, 8),
            Opcode::PUSH9 => ctx.exec_push_op(*self, 9),
            Opcode::PUSH10 => ctx.exec_push_op(*self, 10),
            Opcode::PUSH11 => ctx.exec_push_op(*self, 11),
            Opcode::PUSH12 => ctx.exec_push_op(*self, 12),
            Opcode::PUSH13 => ctx.exec_push_op(*self, 13),
            Opcode::PUSH14 => ctx.exec_push_op(*self, 14),
            Opcode::PUSH15 => ctx.exec_push_op(*self, 15),
            Opcode::PUSH16 => ctx.exec_push_op(*self, 16),
            Opcode::PUSH17 => ctx.exec_push_op(*self, 17),
            Opcode::PUSH18 => ctx.exec_push_op(*self, 18),
            Opcode::PUSH19 => ctx.exec_push_op(*self, 19),
            Opcode::PUSH20 => ctx.exec_push_op(*self, 20),
            Opcode::PUSH21 => ctx.exec_push_op(*self, 21),
            Opcode::PUSH22 => ctx.exec_push_op(*self, 22),
            Opcode::PUSH23 => ctx.exec_push_op(*self, 23),
            Opcode::PUSH24 => ctx.exec_push_op(*self, 24),
            Opcode::PUSH25 => ctx.exec_push_op(*self, 25),
            Opcode::PUSH26 => ctx.exec_push_op(*self, 26),
            Opcode::PUSH27 => ctx.exec_push_op(*self, 27),
            Opcode::PUSH28 => ctx.exec_push_op(*self, 28),
            Opcode::PUSH29 => ctx.exec_push_op(*self, 29),
            Opcode::PUSH30 => ctx.exec_push_op(*self, 30),
            Opcode::PUSH31 => ctx.exec_push_op(*self, 31),
            Opcode::PUSH32 => ctx.exec_push_op(*self, 32),
            Opcode::DUP1 => ctx.exec_dup_op(*self, 1),
            Opcode::DUP2 => ctx.exec_dup_op(*self, 2),
            Opcode::DUP3 => ctx.exec_dup_op(*self, 3),
            Opcode::DUP4 => ctx.exec_dup_op(*self, 4),
            Opcode::DUP5 => ctx.exec_dup_op(*self, 5),
            Opcode::DUP6 => ctx.exec_dup_op(*self, 6),
            Opcode::DUP7 => ctx.exec_dup_op(*self, 7),
            Opcode::DUP8 => ctx.exec_dup_op(*self, 8),
            Opcode::DUP9 => ctx.exec_dup_op(*self, 9),
            Opcode::DUP10 => ctx.exec_dup_op(*self, 10),
            Opcode::DUP11 => ctx.exec_dup_op(*self, 11),
            Opcode::DUP12 => ctx.exec_dup_op(*self, 12),
            Opcode::DUP13 => ctx.exec_dup_op(*self, 13),
            Opcode::DUP14 => ctx.exec_dup_op(*self, 14),
            Opcode::DUP15 => ctx.exec_dup_op(*self, 15),
            Opcode::DUP16 => ctx.exec_dup_op(*self, 16),
            Opcode::SWAP1 => ctx.exec_swap_op(*self, 1),
            Opcode::SWAP2 => ctx.exec_swap_op(*self, 2),
            Opcode::SWAP3 => ctx.exec_swap_op(*self, 3),
            Opcode::SWAP4 => ctx.exec_swap_op(*self, 4),
            Opcode::SWAP5 => ctx.exec_swap_op(*self, 5),
            Opcode::SWAP6 => ctx.exec_swap_op(*self, 6),
            Opcode::SWAP7 => ctx.exec_swap_op(*self, 7),
            Opcode::SWAP8 => ctx.exec_swap_op(*self, 8),
            Opcode::SWAP9 => ctx.exec_swap_op(*self, 9),
            Opcode::SWAP10 => ctx.exec_swap_op(*self, 10),
            Opcode::SWAP11 => ctx.exec_swap_op(*self, 11),
            Opcode::SWAP12 => ctx.exec_swap_op(*self, 12),
            Opcode::SWAP13 => ctx.exec_swap_op(*self, 13),
            Opcode::SWAP14 => ctx.exec_swap_op(*self, 14),
            Opcode::SWAP15 => ctx.exec_swap_op(*self, 15),
            Opcode::SWAP16 => ctx.exec_swap_op(*self, 16),
            Opcode::LOG0 => ctx.exec_log_op(*self, 0),
            Opcode::LOG1 => ctx.exec_log_op(*self, 1),
            Opcode::LOG2 => ctx.exec_log_op(*self, 2),
            Opcode::LOG3 => ctx.exec_log_op(*self, 3),
            Opcode::LOG4 => ctx.exec_log_op(*self, 4),
            Opcode::CREATE => ctx.exec_create(*self),
            Opcode::CALL | Opcode::CALLCODE | Opcode::DELEGATECALL | Opcode::STATICCALL => ctx
                .exec_call_family(*self),
            Opcode::RETURN | Opcode::REVERT => ctx.exec_capture(*self),
            Opcode::CREATE2 | Opcode::INVALID => ctx.exec_reject(*self),
            Opcode::SELFDESTRUCT => ctx.exec_selfdestruct(*self),
        }
    }
}

impl ExecutionContext {
    /// The shared tail of the COPY instructions: pops the destination,
    /// the source offset and the size, and writes the source bytes into
    /// memory with zero fill past the source's end. With `clamp`, the
    /// size is first capped at the source length.
    fn copy_step(&mut self, src: &Bytes, clamp: bool) -> (r: Result<(), VmError>)
        requires
            ctx_wf(*old(self)),
        ensures
            ctx_wf(*final(self)),
            same_but_smgp(*old(self), *final(self)),
            final(self).gas == old(self).gas,
            final(self).pc == old(self).pc,
            r is Ok <==> copy_args_ok(old(self).stack@, src@, clamp),
            r is Ok ==> ({
                let s = old(self).stack@;
                let d = be_val(s.last());
                let so = be_val(s[s.len() - 2]);
                let szc = copy_size(s, src@, clamp);
                let grown = crate::memory::mem_grown(old(self).memory@, (d + szc) as nat);
                &&& final(self).stack@ == s.take(s.len() - 3)
                &&& final(self).memory@.len() == grown.len()
                &&& (forall|i: int|
                    0 <= i < final(self).memory@.len() ==> final(self).memory@[i] == (if d
                        <= i < d + szc {
                        (if so + (i - d) < src@.len() {
                            src@[so + (i - d)]
                        } else {
                            0u8
                        })
                    } else {
                        grown[i]
                    }))
            }),
    {
        let dest = match self.pop_usize() {
            Ok(v) => v,
            Err(e) => {
                return Err(e);
            },
        };
        let src_off = match self.stack.pop() {
            Ok(w) => {
                match w.as_usize() {
                    Some(v) => v,
                    None => usize::MAX,
                }
            },
            Err(e) => {
                return Err(e);
            },
        };
        let mut size = match self.pop_usize() {
            Ok(v) => v,
            Err(e) => {
                return Err(e);
            },
        };
        let src_len = src.len();
        if clamp && size > src_len {
            size = src_len;
        }
        let ghost so_true = be_val(old(self).stack@[old(self).stack@.len() - 2]);
        let wr = self.write_mem_from(dest, src, src_off, size);
        proof {
            if wr is Ok {
                assert(final(self).stack@ =~= old(self).stack@.take(
                    old(self).stack@.len() - 3,
                ));
                let d = dest as int;
                assert forall|i: int|
                    0 <= i < final(self).memory@.len() implies final(self).memory@[i] == (if d
                    <= i < d + size {
                    (if so_true + (i - d) < src@.len() {
                        src@[so_true + (i - d)]
                    } else {
                        0u8
                    })
                } else {
                    crate::memory::mem_grown(old(self).memory@, (dest + size) as nat)[i]
                }) by {
                    if d <= i < d + size {
                        if so_true > usize::MAX {
                            assert(src_off == usize::MAX);
                            assert(src@.len() == src_len);
                        }
                    }
                }
            }
        }
        wr
    }
}

} // verus!

verus! {

/// The immediate count of a PUSH instruction; zero for any other.
pub open spec fn push_count(op: Opcode) -> int {
    match op {
        Opcode::PUSH1 => 1,
        Opcode::PUSH2 => 2,
        Opcode::PUSH3 => 3,
        Opcode::PUSH4 => 4,
        Opcode::PUSH5 => 5,
        Opcode::PUSH6 => 6,
        Opcode::PUSH7 => 7,
        Opcode::PUSH8 => 8,
        Opcode::PUSH9 => 9,
        Opcode::PUSH10 => 10,
        Opcode::PUSH11 => 11,
        Opcode::PUSH12 => 12,
        Opcode::PUSH13 => 13,
        Opcode::PUSH14 => 14,
        Opcode::PUSH15 => 15,
        Opcode::PUSH16 => 16,
        Opcode::PUSH17 => 17,
        Opcode::PUSH18 => 18,
        Opcode::PUSH19 => 19,
        Opcode::PUSH20 => 20,
        Opcode::PUSH21 => 21,
        Opcode::PUSH22 => 22,
        Opcode::PUSH23 => 23,
        Opcode::PUSH24 => 24,
        Opcode::PUSH25 => 25,
        Opcode::PUSH26 => 26,
        Opcode::PUSH27 => 27,
        Opcode::PUSH28 => 28,
        Opcode::PUSH29 => 29,
        Opcode::PUSH30 => 30,
        Opcode::PUSH31 => 31,
        Opcode::PUSH32 => 32,
        _ => 0,
    }
}

/// The depth a DUP instruction copies from; zero for any other.
pub open spec fn dup_index(op: Opcode) -> int {
    match op {
        Opcode::DUP1 => 1,
        Opcode::DUP2 => 2,
        Opcode::DUP3 => 3,
        Opcode::DUP4 => 4,
        Opcode::DUP5 => 5,
        Opcode::DUP6 => 6,
        Opcode::DUP7 => 7,
        Opcode::DUP8 => 8,
        Opcode::DUP9 => 9,
        Opcode::DUP10 => 10,
        Opcode::DUP11 => 11,
        Opcode::DUP12 => 12,
        Opcode::DUP13 => 13,
        Opcode::DUP14 => 14,
        Opcode::DUP15 => 15,
        Opcode::DUP16 => 16,
        _ => 0,
    }
}

/// The depth a SWAP instruction exchanges with; zero for any other.
pub open spec fn swap_index(op: Opcode) -> int {
    match op {
        Opcode::SWAP1 => 1,
        Opcode::SWAP2 => 2,
        Opcode::SWAP3 => 3,
        Opcode::SWAP4 => 4,
        Opcode::SWAP5 => 5,
        Opcode::SWAP6 => 6,
        Opcode::SWAP7 => 7,
        Opcode::SWAP8 => 8,
        Opcode::SWAP9 => 9,
        Opcode::SWAP10 => 10,
        Opcode::SWAP11 => 11,
        Opcode::SWAP12 => 12,
        Opcode::SWAP13 => 13,
        Opcode::SWAP14 => 14,
        Opcode::SWAP15 => 15,
        Opcode::SWAP16 => 16,
        _ => 0,
    }
}

/// The topic count of a LOG instruction; negative for any other.
pub open spec fn log_count(op: Opcode) -> int {
    match op {
        Opcode::LOG0 => 0,
        Opcode::LOG1 => 1,
        Opcode::LOG2 => 2,
        Opcode::LOG3 => 3,
        Opcode::LOG4 => 4,
        _ => -1,
    }
}

/// The low 20 bytes of a stack word, as the address it names.
pub open spec fn addr_view(w: Seq<u8>) -> Seq<u8> {
    w.skip(12)
}

/// A word-shaped stack entry: 32 bytes.
pub open spec fn is_word(v: Seq<u8>) -> bool {
    v.len() == 32
}

/// The transition of the pure stack instructions (arithmetic, comparison,
/// bitwise, shifts, and POP): only stack, gas and program counter change.
pub open spec fn stack_op_step(op: Opcode, pre: ExecutionContext, post: ExecutionContext, c: ControlFlow) -> bool {
    &&& same_but_sgp(pre, post)
    &&& (c is Continue || c is Revert)
    &&& (c is Continue ==> post.pc == pre.pc + 1)
    &&& stack_op_effect(op, pre.stack@, post.stack@, c)
}

/// What each pure stack instruction pops and pushes.
pub open spec fn stack_op_effect(op: Opcode, s: Seq<Seq<u8>>, t: Seq<Seq<u8>>, c: ControlFlow) -> bool {
    match op {
        Opcode::ADD | Opcode::MUL | Opcode::SUB | Opcode::DIV | Opcode::SDIV | Opcode::MOD
            | Opcode::SMOD => {
            &&& ((c is Continue) <==> s.len() >= 2)
            &&& (c is Continue ==> stack_binop(
                s,
                t,
                arith_val(op, be_val(s.last()), be_val(s[s.len() - 2])),
            ))
        },
        Opcode::LT | Opcode::GT | Opcode::SLT | Opcode::SGT | Opcode::EQ => {
            &&& ((c is Continue) <==> s.len() >= 2)
            &&& (c is Continue ==> stack_binop(
                s,
                t,
                cmp_val(op, be_val(s.last()), be_val(s[s.len() - 2])),
            ))
        },
        Opcode::ADDMOD | Opcode::MULMOD => {
            &&& ((c is Continue) <==> s.len() >= 3)
            &&& (c is Continue ==> {
                let a = be_val(s.last());
                let b = be_val(s[s.len() - 2]);
                let m = be_val(s[s.len() - 3]);
                &&& t.len() == s.len() - 2
                &&& t.drop_last() == s.drop_last().drop_last().drop_last()
                &&& is_word(t.last())
                &&& be_val(t.last()) == (if m == 0 {
                    0nat
                } else if op is ADDMOD {
                    (a + b) % m
                } else {
                    (a * b) % m
                })
            })
        },
        Opcode::EXP => {
            &&& ((c is Continue) <==> s.len() >= 2)
            &&& (c is Continue ==> {
                &&& t.len() == s.len() - 1
                &&& t.drop_last() == s.drop_last().drop_last()
                &&& is_word(t.last())
                &&& be_val(t.last()) as int == vstd::arithmetic::power::pow(
                    be_val(s.last()) as int,
                    be_val(s[s.len() - 2]),
                ) % (word_mod() as int)
            })
        },
        Opcode::SIGNEXTEND => {
            &&& ((c is Continue) <==> s.len() >= 2)
            &&& (c is Continue ==> {
                let k = be_val(s.last());
                let x = s[s.len() - 2];
                &&& t.len() == s.len() - 1
                &&& t.drop_last() == s.drop_last().drop_last()
                &&& is_word(t.last())
                &&& (k >= 31 ==> t.last() == x)
                &&& (k < 31 ==> (forall|i: int|
                    0 <= i < 32 ==> t.last()[i] == (if i < 31 - k {
                        (if x[31 - k] >= 128 {
                            255u8
                        } else {
                            0u8
                        })
                    } else {
                        x[i]
                    })))
            })
        },
        Opcode::ISZERO => {
            &&& ((c is Continue) <==> s.len() >= 1)
            &&& (c is Continue ==> stack_unop(
                s,
                t,
                (if be_val(s.last()) == 0 {
                    1nat
                } else {
                    0nat
                }),
            ))
        },
        Opcode::AND | Opcode::OR | Opcode::XOR => {
            &&& ((c is Continue) <==> s.len() >= 2)
            &&& (c is Continue ==> {
                let a = s.last();
                let b = s[s.len() - 2];
                &&& t.len() == s.len() - 1
                &&& t.drop_last() == s.drop_last().drop_last()
                &&& is_word(t.last())
                &&& (forall|i: int|
                    0 <= i < 32 ==> t.last()[i] == (if op is AND {
                        a[i] & b[i]
                    } else if op is OR {
                        a[i] | b[i]
                    } else {
                        a[i] ^ b[i]
                    }))
            })
        },
        Opcode::NOT => {
            &&& ((c is Continue) <==> s.len() >= 1)
            &&& (c is Continue ==> {
                &&& t.len() == s.len()
                &&& t.drop_last() == s.drop_last()
                &&& is_word(t.last())
                &&& (forall|i: int| 0 <= i < 32 ==> t.last()[i] == !s.last()[i])
            })
        },
        Opcode::BYTE => {
            &&& ((c is Continue) <==> s.len() >= 2)
            &&& (c is Continue ==> stack_binop(
                s,
                t,
                ({
                    let i = be_val(s.last());
                    if i < 32 {
                        s[s.len() - 2][i as int] as nat
                    } else {
                        0nat
                    }
                }),
            ))
        },
        Opcode::SHL | Opcode::SHR | Opcode::SAR => {
            &&& ((c is Continue) <==> s.len() >= 2)
            &&& (c is Continue ==> {
                let sh = be_val(s.last());
                let v = be_val(s[s.len() - 2]);
                &&& t.len() == s.len() - 1
                &&& t.drop_last() == s.drop_last().drop_last()
                &&& is_word(t.last())
                &&& (op is SHL ==> be_val(t.last()) == (if sh >= 256 {
                    0nat
                } else {
                    (v * crate::arith::p2(sh)) % word_mod()
                }))
                &&& (op is SHR ==> be_val(t.last()) == (if sh >= 256 {
                    0nat
                } else {
                    v / crate::arith::p2(sh)
                }))
                &&& (op is SAR ==> be_val(t.last()) as int == (if sh >= 256 {
                    if word_signed(v) < 0 {
                        word_mod() - 1
                    } else {
                        0int
                    }
                } else {
                    (word_signed(v) / (crate::arith::p2(sh) as int)) % (word_mod() as int)
                }))
            })
        },
        Opcode::POP => {
            &&& ((c is Continue) <==> s.len() >= 1)
            &&& (c is Continue ==> t == s.drop_last())
        },
        _ => false,
    }
}

/// The PUSH transition: exactly n immediate bytes are read (zero past the
/// end of code), right-aligned into a pushed word, and the program
/// counter advances past them.
pub open spec fn push_op_step(n: int, pre: ExecutionContext, post: ExecutionContext, c: ControlFlow) -> bool {
    &&& same_but_sgp(pre, post)
    &&& (c is Continue || c is Revert)
    &&& ((c is Continue) <==> pre.stack@.len() < 1024)
    &&& (c is Continue ==> post.stack@ == pre.stack@.push(push_imm(pre.code@, pre.pc as int, n))
        && post.pc == pre.pc + 1 + n)
}

/// The DUP transition: the n-th word from the top is pushed again.
pub open spec fn dup_op_step(n: int, pre: ExecutionContext, post: ExecutionContext, c: ControlFlow) -> bool {
    &&& same_but_sgp(pre, post)
    &&& (c is Continue || c is Revert)
    &&& ((c is Continue) <==> (n <= pre.stack@.len() && pre.stack@.len() < 1024))
    &&& (c is Continue ==> post.stack@ == pre.stack@.push(pre.stack@[pre.stack@.len() - n])
        && post.pc == pre.pc + 1)
}

/// The SWAP transition: the top exchanges with the word n below it.
pub open spec fn swap_op_step(n: int, pre: ExecutionContext, post: ExecutionContext, c: ControlFlow) -> bool {
    &&& same_but_sgp(pre, post)
    &&& (c is Continue || c is Revert)
    &&& ((c is Continue) <==> n < pre.stack@.len())
    &&& (c is Continue ==> post.stack@ == pre.stack@.update(
        pre.stack@.len() - 1,
        pre.stack@[pre.stack@.len() - 1 - n],
    ).update(pre.stack@.len() - 1 - n, pre.stack@[pre.stack@.len() - 1]) && post.pc == pre.pc
        + 1)
}

/// The JUMP transition: taken exactly when the popped target is a legal
/// destination; anything else reverts the frame.
pub open spec fn jump_op_step(pre: ExecutionContext, post: ExecutionContext, c: ControlFlow) -> bool {
    &&& same_but_sgp(pre, post)
    &&& (c is Continue || c is Revert)
    &&& ((c is Continue) <==> (pre.stack@.len() >= 1 && be_val(pre.stack@.last()) <= usize::MAX
        && valid_dests(pre.code@, 0).contains(be_val(pre.stack@.last()) as int)))
    &&& (c is Continue ==> post.stack@ == pre.stack@.drop_last() && post.pc == be_val(
        pre.stack@.last(),
    ))
}

/// The JUMPI transition: a zero condition steps on; otherwise as JUMP.
pub open spec fn jumpi_op_step(pre: ExecutionContext, post: ExecutionContext, c: ControlFlow) -> bool {
    let s = pre.stack@;
    &&& same_but_sgp(pre, post)
    &&& (c is Continue || c is Revert)
    &&& ((c is Continue) <==> (s.len() >= 2 && (be_val(s[s.len() - 2]) == 0 || (be_val(s.last())
        <= usize::MAX && valid_dests(pre.code@, 0).contains(be_val(s.last()) as int)))))
    &&& (c is Continue ==> post.stack@ == s.drop_last().drop_last())
    &&& ((c is Continue && be_val(s[s.len() - 2]) == 0) ==> post.pc == pre.pc + 1)
    &&& ((c is Continue && be_val(s[s.len() - 2]) != 0) ==> post.pc == be_val(s.last()))
}

/// The JUMPDEST transition: a gas-charged no-op.
pub open spec fn jumpdest_step(pre: ExecutionContext, post: ExecutionContext, c: ControlFlow) -> bool {
    &&& post == (ExecutionContext { gas: post.gas, pc: post.pc, ..pre })
    &&& c is Continue
    &&& post.pc == pre.pc + 1
}

/// The STOP transition: the frame finishes successfully.
pub open spec fn stop_step(pre: ExecutionContext, post: ExecutionContext, c: ControlFlow) -> bool {
    &&& post == (ExecutionContext { gas: post.gas, stopped: post.stopped, ..pre })
    &&& post.stopped
    &&& c is Stop
}

/// The transition of INVALID and of the unimplemented CREATE2: the frame
/// reverts with nothing else changed.
pub open spec fn reject_step(pre: ExecutionContext, post: ExecutionContext, c: ControlFlow) -> bool {
    &&& post == (ExecutionContext { gas: post.gas, ..pre })
    &&& c is Revert
}

} // verus!

verus! {

/// When an environment-reading instruction can produce its word: always,
/// except the two whose size computation must fit the machine.
pub open spec fn env_ok(op: Opcode, pre: ExecutionContext) -> bool {
    match op {
        Opcode::MSIZE => pre.memory@.len() + 31 <= usize::MAX,
        Opcode::CALLDATASIZE => pre.env.call.data@.len() + 31 <= usize::MAX,
        _ => true,
    }
}

/// A zero-extended address as a 32-byte word.
pub open spec fn is_addr_word(v: Seq<u8>, a: Seq<u8>) -> bool {
    &&& is_word(v)
    &&& v.skip(12) == a
    &&& (forall|i: int| 0 <= i < 12 ==> v[i] == 0)
}

/// The word each environment-reading instruction pushes.
pub open spec fn env_value_ok(op: Opcode, pre: ExecutionContext, v: Seq<u8>) -> bool {
    match op {
        Opcode::ADDRESS => is_addr_word(v, pre.target@),
        Opcode::ORIGIN => is_addr_word(v, pre.env.call.originator@),
        Opcode::CALLER => is_addr_word(v, pre.env.call.sender@),
        Opcode::CALLVALUE => v == pre.env.call.value@,
        Opcode::GASPRICE => v == pre.env.call.gas_price@,
        Opcode::TIMESTAMP => v == pre.env.block.timestamp@,
        Opcode::GASLIMIT => v == pre.env.block.gas_limit@,
        Opcode::CHAINID => is_word(v) && be_val(v) == pre.env.block.chain_id,
        Opcode::NUMBER => is_word(v) && be_val(v) == (match pre.env.block.number {
            Some(n) => n as nat,
            None => 0,
        }),
        Opcode::COINBASE => (match pre.env.block.beneficiary {
            Some(a) => is_addr_word(v, a@),
            None => is_word(v) && be_val(v) == 0,
        }),
        Opcode::PREVRANDAO => (match pre.env.block.prev_randao {
            Some(x) => v == x@,
            None => (match pre.env.block.difficulty {
                Some(d) => v == d@,
                None => is_word(v) && be_val(v) == 0,
            }),
        }),
        Opcode::BASEFEE => (match pre.env.block.base_fee {
            Some(x) => v == x@,
            None => is_word(v) && be_val(v) == 0,
        }),
        Opcode::SELFBALANCE => is_word(v) && be_val(v) == pre.state.balance_of(pre.target@),
        Opcode::PC => is_word(v) && be_val(v) == pre.pc,
        Opcode::GAS => is_word(v) && be_val(v) as int == word_mod() - 1,
        Opcode::MSIZE => is_word(v) && be_val(v) == crate::memory::round32(
            pre.memory@.len() as nat,
        ),
        Opcode::CALLDATASIZE => is_word(v) && be_val(v) == crate::memory::round32(
            pre.env.call.data@.len() as nat,
        ),
        Opcode::CODESIZE => is_word(v) && be_val(v) == pre.code@.len(),
        Opcode::RETURNDATASIZE => is_word(v) && be_val(v) == pre.return_data@.len(),
        _ => false,
    }
}

/// The transition of the environment-reading instructions: one word is
/// pushed and the program counter steps.
pub open spec fn env_push_op_step(op: Opcode, pre: ExecutionContext, post: ExecutionContext, c: ControlFlow) -> bool {
    &&& same_but_sgp(pre, post)
    &&& (c is Continue || c is Revert)
    &&& ((c is Continue) <==> (pre.stack@.len() < 1024 && env_ok(op, pre)))
    &&& (c is Continue ==> post.stack@.len() == pre.stack@.len() + 1 && post.stack@.drop_last()
        == pre.stack@ && env_value_ok(op, pre, post.stack@.last()) && post.pc == pre.pc + 1)
}

/// The transition of BALANCE, EXTCODESIZE, EXTCODEHASH and BLOCKHASH:
/// one word popped as an address (or block number), one answer pushed.
pub open spec fn addr_query_step(op: Opcode, pre: ExecutionContext, post: ExecutionContext, c: ControlFlow) -> bool {
    let a = addr_view(pre.stack@.last());
    &&& same_but_sgp(pre, post)
    &&& (c is Continue || c is Revert)
    &&& ((c is Continue) <==> pre.stack@.len() >= 1)
    &&& (c is Continue ==> {
        &&& post.stack@.len() == pre.stack@.len()
        &&& post.stack@.drop_last() == pre.stack@.drop_last()
        &&& post.pc == pre.pc + 1
        &&& (op is BALANCE ==> is_word(post.stack@.last()) && be_val(post.stack@.last())
            == pre.state.balance_of(a))
        &&& (op is EXTCODESIZE ==> is_word(post.stack@.last()) && be_val(post.stack@.last())
            == pre.state.code_of(a).len())
        &&& (op is EXTCODEHASH ==> post.stack@.last() == crate::keccak::keccak256(
            pre.state.code_of(a),
        ))
        &&& (op is BLOCKHASH ==> is_word(post.stack@.last()) && be_val(post.stack@.last()) == 0)
    })
}

/// The CALLDATALOAD transition: 32 calldata bytes from the popped offset,
/// zero past the end.
pub open spec fn calldataload_step(pre: ExecutionContext, post: ExecutionContext, c: ControlFlow) -> bool {
    &&& same_but_sgp(pre, post)
    &&& (c is Continue || c is Revert)
    &&& ((c is Continue) <==> pre.stack@.len() >= 1)
    &&& (c is Continue ==> {
        let off = be_val(pre.stack@.last());
        let data = pre.env.call.data@;
        &&& post.stack@.len() == pre.stack@.len()
        &&& post.stack@.drop_last() == pre.stack@.drop_last()
        &&& is_word(post.stack@.last())
        &&& (forall|i: int|
            0 <= i < 32 ==> post.stack@.last()[i] == (if off + i < data.len() {
                data[off + i]
            } else {
                0u8
            }))
        &&& post.pc == pre.pc + 1
    })
}

/// The transition shared by the COPY instructions over a given source.
pub open spec fn copy_op_step(pre: ExecutionContext, post: ExecutionContext, c: ControlFlow, s: Seq<Seq<u8>>, src: Seq<u8>, clamp: bool) -> bool {
    &&& same_but_smgp(pre, post)
    &&& (c is Continue || c is Revert)
    &&& ((c is Continue) <==> copy_args_ok(s, src, clamp))
    &&& (c is Continue ==> {
        let d = be_val(s.last());
        let so = be_val(s[s.len() - 2]);
        let szc = copy_size(s, src, clamp);
        let grown = crate::memory::mem_grown(pre.memory@, (d + szc) as nat);
        &&& post.stack@ == s.take(s.len() - 3)
        &&& post.memory@.len() == grown.len()
        &&& (forall|i: int|
            0 <= i < post.memory@.len() ==> post.memory@[i] == (if d <= i < d + szc {
                (if so + (i - d) < src.len() {
                    src[so + (i - d)]
                } else {
                    0u8
                })
            } else {
                grown[i]
            }))
        &&& post.pc == pre.pc + 1
    })
}

/// The EXTCODECOPY transition: an address is popped first, then the copy
/// runs over that account's code.
pub open spec fn extcodecopy_step(pre: ExecutionContext, post: ExecutionContext, c: ControlFlow) -> bool {
    let src = pre.state.code_of(addr_view(pre.stack@.last()));
    &&& (c is Continue ==> pre.stack@.len() >= 1)
    &&& (pre.stack@.len() >= 1 ==> copy_op_step(
        pre,
        post,
        c,
        pre.stack@.drop_last(),
        src,
        false,
    ))
    &&& same_but_smgp(pre, post)
    &&& (c is Continue || c is Revert)
}

/// The MLOAD, MSTORE and MSTORE8 transitions.
pub open spec fn mem_op_step(op: Opcode, pre: ExecutionContext, post: ExecutionContext, c: ControlFlow) -> bool {
    let s = pre.stack@;
    &&& same_but_smgp(pre, post)
    &&& (c is Continue || c is Revert)
    &&& (op is MLOAD ==> {
        &&& ((c is Continue) <==> (s.len() >= 1 && be_val(s.last()) + 63 <= usize::MAX))
        &&& (c is Continue ==> {
            let off = be_val(s.last());
            &&& post.memory@ == crate::memory::mem_grown(pre.memory@, (off + 32) as nat)
            &&& post.stack@.len() == s.len()
            &&& post.stack@.drop_last() == s.drop_last()
            &&& post.stack@.last() == post.memory@.subrange(off as int, off as int + 32)
            &&& post.pc == pre.pc + 1
        })
    })
    &&& (op is MSTORE ==> {
        &&& ((c is Continue) <==> (s.len() >= 2 && be_val(s.last()) + 63 <= usize::MAX))
        &&& (c is Continue ==> {
            let off = be_val(s.last());
            let v = s[s.len() - 2];
            let grown = crate::memory::mem_grown(pre.memory@, (off + 32) as nat);
            &&& post.stack@ == s.drop_last().drop_last()
            &&& post.memory@.len() == grown.len()
            &&& (forall|i: int|
                0 <= i < post.memory@.len() ==> post.memory@[i] == (if off <= i < off + 32 {
                    v[i - off]
                } else {
                    grown[i]
                }))
            &&& post.pc == pre.pc + 1
        })
    })
    &&& (op is MSTORE8 ==> {
        &&& ((c is Continue) <==> (s.len() >= 2 && be_val(s.last()) + 32 <= usize::MAX))
        &&& (c is Continue ==> {
            let off = be_val(s.last());
            let v = s[s.len() - 2];
            let grown = crate::memory::mem_grown(pre.memory@, (off + 1) as nat);
            &&& post.stack@ == s.drop_last().drop_last()
            &&& post.memory@.len() == grown.len()
            &&& (forall|i: int|
                0 <= i < post.memory@.len() ==> post.memory@[i] == (if i == off {
                    v[31]
                } else {
                    grown[i]
                }))
            &&& post.pc == pre.pc + 1
        })
    })
}

/// The SHA3 transition: the memory range is hashed with Keccak-256.
pub open spec fn sha3_op_step(pre: ExecutionContext, post: ExecutionContext, c: ControlFlow) -> bool {
    let s = pre.stack@;
    &&& same_but_smgp(pre, post)
    &&& (c is Continue || c is Revert)
    &&& ((c is Continue) <==> (s.len() >= 2 && be_val(s.last()) + be_val(s[s.len() - 2]) + 31
        <= usize::MAX))
    &&& (c is Continue ==> {
        let off = be_val(s.last());
        let sz = be_val(s[s.len() - 2]);
        &&& post.memory@ == crate::memory::mem_grown(pre.memory@, (off + sz) as nat)
        &&& post.stack@.len() == s.len() - 1
        &&& post.stack@.drop_last() == s.drop_last().drop_last()
        &&& post.stack@.last() == crate::keccak::keccak256(
            post.memory@.subrange(off as int, off as int + sz),
        )
        &&& post.pc == pre.pc + 1
    })
}

/// The SLOAD transition: the current contract's slot is pushed, zero for
/// a never-written key.
pub open spec fn sload_op_step(pre: ExecutionContext, post: ExecutionContext, c: ControlFlow) -> bool {
    &&& same_but_sgp(pre, post)
    &&& (c is Continue || c is Revert)
    &&& ((c is Continue) <==> pre.stack@.len() >= 1)
    &&& (c is Continue ==> post.stack@.len() == pre.stack@.len() && post.stack@.drop_last()
        == pre.stack@.drop_last() && post.stack@.last() == pre.state.slot_of(
        pre.target@,
        pre.stack@.last(),
    ) && post.pc == pre.pc + 1)
}

/// The SSTORE transition: forbidden in a static frame; otherwise exactly
/// one slot of the current contract changes.
pub open spec fn sstore_op_step(pre: ExecutionContext, post: ExecutionContext, c: ControlFlow) -> bool {
    &&& same_but_sstate(pre, post)
    &&& (c is Continue || c is Revert)
    &&& ((c is Continue) <==> (!pre.env.call.view_only && pre.stack@.len() >= 2))
    &&& (pre.env.call.view_only ==> post == (ExecutionContext { gas: post.gas, ..pre }))
    &&& (c is Continue ==> {
        let key = pre.stack@.last();
        let v = pre.stack@[pre.stack@.len() - 2];
        &&& post.stack@ == pre.stack@.drop_last().drop_last()
        &&& post.state.slot_of(pre.target@, key) == v
        &&& (forall|k: Seq<u8>|
            k != key ==> #[trigger] post.state.slot_of(pre.target@, k) == pre.state.slot_of(
                pre.target@,
                k,
            ))
        &&& (forall|a: Seq<u8>, k: Seq<u8>|
            a != pre.target@ ==> #[trigger] post.state.slot_of(a, k) == pre.state.slot_of(a, k))
        &&& (forall|a: Seq<u8>|
            #[trigger] post.state.balance_of(a) == pre.state.balance_of(a))
        &&& (forall|a: Seq<u8>| #[trigger] post.state.code_of(a) == pre.state.code_of(a))
        &&& post.pc == pre.pc + 1
    })
}

/// The LOGn transition: a record for the current contract with the read
/// memory range and n popped topics is appended.
pub open spec fn log_op_step(n: int, pre: ExecutionContext, post: ExecutionContext, c: ControlFlow) -> bool {
    let s = pre.stack@;
    &&& same_but_slogs(pre, post)
    &&& (c is Continue || c is Revert)
    &&& ((c is Continue) <==> (s.len() >= 2 + n && be_val(s.last()) + be_val(s[s.len() - 2])
        + 31 <= usize::MAX))
    &&& (c is Revert ==> post.logs@ == pre.logs@)
    &&& (c is Continue ==> {
        let off = be_val(s.last());
        let sz = be_val(s[s.len() - 2]);
        &&& post.logs@.len() == pre.logs@.len() + 1
        &&& post.logs@.take(pre.logs@.len() as int) == pre.logs@
        &&& post.logs@.last().address@ == pre.target@
        &&& post.logs@.last().data@ == post.memory@.subrange(off as int, off as int + sz)
        &&& post.logs@.last().topics@.len() == n
        &&& post.memory@ == crate::memory::mem_grown(pre.memory@, (off + sz) as nat)
        &&& post.stack@ == s.take(s.len() - 2 - n)
        &&& post.pc == pre.pc + 1
    })
}

/// The RETURN transition: the memory range becomes the frame's output and
/// the frame finishes; unrepresentable operands revert instead.
pub open spec fn return_op_step(pre: ExecutionContext, post: ExecutionContext, c: ControlFlow) -> bool {
    let s = pre.stack@;
    &&& capture_shape(pre, post)
    &&& (c is Return || c is Revert)
    &&& ((c is Return) <==> (s.len() >= 2 && be_val(s.last()) + be_val(s[s.len() - 2]) + 31
        <= usize::MAX))
    &&& (c is Return ==> capture_effect(pre, post) && post.stopped)
}

/// The REVERT transition: the frame always fails; with representable
/// operands the memory range becomes the frame's output first.
pub open spec fn revert_op_step(pre: ExecutionContext, post: ExecutionContext, c: ControlFlow) -> bool {
    let s = pre.stack@;
    &&& capture_shape(pre, post)
    &&& c is Revert
    &&& ((s.len() >= 2 && be_val(s.last()) + be_val(s[s.len() - 2]) + 31 <= usize::MAX)
        ==> capture_effect(pre, post))
}

/// What RETURN and REVERT may touch.
pub open spec fn capture_shape(pre: ExecutionContext, post: ExecutionContext) -> bool {
    &&& post == (ExecutionContext {
        stack: post.stack,
        memory: post.memory,
        gas: post.gas,
        env: post.env,
        stopped: post.stopped,
        ..pre
    })
    &&& post.env.block == pre.env.block
    &&& same_call_mod_result(pre.env.call, post.env.call)
}

/// The output capture both RETURN and REVERT perform.
pub open spec fn capture_effect(pre: ExecutionContext, post: ExecutionContext) -> bool {
    let off = be_val(pre.stack@.last());
    let sz = be_val(pre.stack@[pre.stack@.len() - 2]);
    &&& post.stack@ == pre.stack@.drop_last().drop_last()
    &&& post.memory@ == crate::memory::mem_grown(pre.memory@, (off + sz) as nat)
    &&& post.env.call.result@ == post.memory@.subrange(off as int, off as int + sz)
}

/// The transition of the four call instructions.
pub open spec fn call_op_step(op: Opcode, pre: ExecutionContext, post: ExecutionContext, c: ControlFlow) -> bool {
    &&& same_but_call(pre, post)
    &&& (c is Continue || c is Revert)
    &&& ((c is Continue) <==> call_args_ok(op, pre))
    &&& (c is Revert ==> post.state == pre.state && post.logs == pre.logs)
    &&& (c is Continue ==> {
        &&& pre.stack@.len() >= call_arity(op)
        &&& post.stack@.len() == pre.stack@.len() - call_arity(op) + 1
        &&& post.stack@.drop_last() == pre.stack@.take(pre.stack@.len() - call_arity(op))
        &&& is_word(post.stack@.last())
        &&& be_val(post.stack@.last()) <= 1
        &&& (be_val(post.stack@.last()) == 0 ==> post.state == pre.state && post.logs
            == pre.logs)
        &&& post.pc == pre.pc + 1
    })
    &&& ((c is Continue && pre.depth > 0) ==> {
        let s = pre.stack@;
        let k = call_arity(op);
        let ao = be_val(s[s.len() - k + 3]);
        let asz = be_val(s[s.len() - k + 2]);
        let ro = be_val(s[s.len() - k + 1]);
        let rs = be_val(s[s.len() - k]);
        let grown = crate::memory::mem_grown(pre.memory@, (ao + asz) as nat);
        &&& post.memory@.len() >= grown.len()
        &&& (forall|i: int|
            0 <= i < grown.len() && !(ro <= i < ro + rs) ==> #[trigger] post.memory@[i]
                == grown[i])
    })
}

/// The CREATE transition.
pub open spec fn create_op_step(pre: ExecutionContext, post: ExecutionContext, c: ControlFlow) -> bool {
    &&& same_but_call(pre, post)
    &&& (c is Continue || c is Revert)
    &&& ((c is Continue) <==> create_args_ok(pre))
    &&& (c is Revert ==> post.state == pre.state && post.logs == pre.logs)
}

/// The SELFDESTRUCT transition: the whole balance moves to the popped
/// address and the contract queues for deletion.
pub open spec fn selfdestruct_op_step(pre: ExecutionContext, post: ExecutionContext, c: ControlFlow) -> bool {
    &&& post == (ExecutionContext {
        stack: post.stack,
        state: post.state,
        to_delete: post.to_delete,
        gas: post.gas,
        pc: post.pc,
        ..pre
    })
    &&& (c is Continue || c is Revert)
    &&& ((c is Continue) <==> (pre.stack@.len() >= 1 && !pre.env.call.view_only))
    &&& (c is Revert ==> post.state == pre.state)
    &&& (c is Continue ==> {
        let beneficiary = addr_view(pre.stack@.last());
        &&& post.stack@ == pre.stack@.drop_last()
        &&& post.to_delete@.len() == pre.to_delete@.len() + 1
        &&& (beneficiary != pre.target@ ==> post.state.balance_of(pre.target@) == 0)
        &&& post.pc == pre.pc + 1
    })
}

/// The full per-instruction transition relation of the machine: what one
/// `Opcode::execute` step does to the frame for every instruction.
pub open spec fn step_spec(op: Opcode, pre: ExecutionContext, post: ExecutionContext, c: ControlFlow) -> bool {
    match op {
        Opcode::STOP => stop_step(pre, post, c),
        Opcode::ADD | Opcode::MUL | Opcode::SUB | Opcode::DIV | Opcode::SDIV | Opcode::MOD
            | Opcode::SMOD | Opcode::ADDMOD | Opcode::MULMOD | Opcode::EXP
            | Opcode::SIGNEXTEND | Opcode::LT | Opcode::GT | Opcode::SLT | Opcode::SGT
            | Opcode::EQ | Opcode::ISZERO | Opcode::AND | Opcode::OR | Opcode::XOR
            | Opcode::NOT | Opcode::BYTE | Opcode::SHL | Opcode::SHR | Opcode::SAR
            | Opcode::POP => stack_op_step(op, pre, post, c),
        Opcode::SHA3 => sha3_op_step(pre, post, c),
        Opcode::ADDRESS | Opcode::ORIGIN | Opcode::CALLER | Opcode::CALLVALUE
            | Opcode::GASPRICE | Opcode::TIMESTAMP | Opcode::GASLIMIT | Opcode::CHAINID
            | Opcode::NUMBER | Opcode::COINBASE | Opcode::PREVRANDAO | Opcode::BASEFEE
            | Opcode::SELFBALANCE | Opcode::PC | Opcode::GAS | Opcode::MSIZE
            | Opcode::CALLDATASIZE | Opcode::CODESIZE | Opcode::RETURNDATASIZE
            => env_push_op_step(op, pre, post, c),
        Opcode::BALANCE | Opcode::EXTCODESIZE | Opcode::EXTCODEHASH | Opcode::BLOCKHASH
            => addr_query_step(op, pre, post, c),
        Opcode::CALLDATALOAD => calldataload_step(pre, post, c),
        Opcode::CALLDATACOPY => copy_op_step(pre, post, c, pre.stack@, pre.env.call.data@, false),
        Opcode::CODECOPY => copy_op_step(pre, post, c, pre.stack@, pre.code@, true),
        Opcode::RETURNDATACOPY => copy_op_step(pre, post, c, pre.stack@, pre.return_data@, true),
        Opcode::EXTCODECOPY => extcodecopy_step(pre, post, c),
        Opcode::MLOAD | Opcode::MSTORE | Opcode::MSTORE8 => mem_op_step(op, pre, post, c),
        Opcode::SLOAD => sload_op_step(pre, post, c),
        Opcode::SSTORE => sstore_op_step(pre, post, c),
        Opcode::JUMP => jump_op_step(pre, post, c),
        Opcode::JUMPI => jumpi_op_step(pre, post, c),
        Opcode::JUMPDEST => jumpdest_step(pre, post, c),
        Opcode::CREATE => create_op_step(pre, post, c),
        Opcode::CALL | Opcode::CALLCODE | Opcode::DELEGATECALL | Opcode::STATICCALL
            => call_op_step(op, pre, post, c),
        Opcode::RETURN => return_op_step(pre, post, c),
        Opcode::REVERT => revert_op_step(pre, post, c),
        Opcode::CREATE2 | Opcode::INVALID => reject_step(pre, post, c),
        Opcode::SELFDESTRUCT => selfdestruct_op_step(pre, post, c),
        _ => (if push_count(op) >= 1 {
            push_op_step(push_count(op), pre, post, c)
        } else if dup_index(op) >= 1 {
            dup_op_step(dup_index(op), pre, post, c)
        } else if swap_index(op) >= 1 {
            swap_op_step(swap_index(op), pre, post, c)
        } else {
            log_op_step(log_count(op), pre, post, c)
        }),
    }
}

} // verus!

verus! {

/// Whether a frame has finished: stopped, or the counter ran off the code.
pub open spec fn frame_done(c: ExecutionContext) -> bool {
    c.stopped || c.pc >= c.code@.len()
}

/// The run loop's multi-step relation: from `pre`, within `fuel`
/// instruction steps, the frame reaches `post` and reports `flag`. A
/// finished frame reports success; an unassigned byte or an exhausted
/// budget reports failure; otherwise one `step_spec` transition is taken
/// and its control directive decides how the run goes on.
pub open spec fn run_steps(pre: ExecutionContext, post: ExecutionContext, flag: bool, fuel: nat) -> bool
    decreases fuel,
{
    if frame_done(pre) {
        post == pre && flag == true
    } else if fuel == 0 {
        post == pre && flag == false
    } else if spec_decode(pre.code@[pre.pc as int]) is None {
        post == pre && flag == false
    } else {
        exists|mid: ExecutionContext, c: ControlFlow|
            {
                &&& #[trigger] step_spec(spec_decode(pre.code@[pre.pc as int])->0, pre, mid, c)
                &&& match c {
                    ControlFlow::Continue => run_steps(mid, post, flag, (fuel - 1) as nat),
                    ControlFlow::Stop => flag == true && post == (ExecutionContext {
                        stopped: true,
                        ..mid
                    }),
                    ControlFlow::Return => flag == true && post == (ExecutionContext {
                        stopped: true,
                        ..mid
                    }),
                    ControlFlow::Revert => flag == false && post == mid,
                }
            }
    }
}

/// Prepending one Continue transition to a run.
proof fn lemma_run_steps_cons(
    pre: ExecutionContext,
    mid: ExecutionContext,
    post: ExecutionContext,
    flag: bool,
    fuel: nat,
)
    requires
        !frame_done(pre),
        spec_decode(pre.code@[pre.pc as int]) is Some,
        step_spec(spec_decode(pre.code@[pre.pc as int])->0, pre, mid, ControlFlow::Continue),
        run_steps(mid, post, flag, fuel),
    ensures
        run_steps(pre, post, flag, fuel + 1),
{
    let c = ControlFlow::Continue;
    assert(step_spec(spec_decode(pre.code@[pre.pc as int])->0, pre, mid, c) && run_steps(
        mid,
        post,
        flag,
        fuel,
    ));
}

/// Whether a listed address names `a`.
pub open spec fn queued_for_deletion(l: Seq<Address>, a: Seq<u8>) -> bool {
    exists|i: int| 0 <= i < l.len() && (#[trigger] l[i])@ == a
}

/// The state after the queued self-destructions of `mid` are committed:
/// every queued account is cleared to its defaults, every other account
/// reads as before.
pub open spec fn deletions_committed(mid: ExecutionContext, st: State) -> bool {
    &&& (forall|a: Seq<u8>|
        queued_for_deletion(mid.to_delete@, a) ==> #[trigger] st.balance_of(a) == 0
            && st.nonce_of(a) == 0 && st.code_of(a).len() == 0)
    &&& (forall|a: Seq<u8>, k: Seq<u8>|
        queued_for_deletion(mid.to_delete@, a) ==> #[trigger] st.slot_of(a, k)
            == crate::state::zero_word())
    &&& (forall|a: Seq<u8>|
        !queued_for_deletion(mid.to_delete@, a) ==> #[trigger] st.balance_of(a)
            == mid.state.balance_of(a) && st.nonce_of(a) == mid.state.nonce_of(a)
            && st.code_of(a) == mid.state.code_of(a))
    &&& (forall|a: Seq<u8>, k: Seq<u8>|
        !queued_for_deletion(mid.to_delete@, a) ==> #[trigger] st.slot_of(a, k)
            == mid.state.slot_of(a, k))
}


/// The base state with the call value moved from sender to recipient,
/// account for account.
pub open spec fn transferred_state(st: State, base: State, call: Call) -> bool {
    let from = call.sender@;
    let to = call.recipient@;
    let v = call.value.val();
    &&& ((v > 0 && to != from) ==> (st.balance_of(from) == base.balance_of(from) - v
        && st.balance_of(to) == credited(base.balance_of(to), v)))
    &&& ((v == 0 || to == from) ==> (st.balance_of(from) == base.balance_of(from)
        && st.balance_of(to) == base.balance_of(to)))
    &&& (forall|a: Seq<u8>|
        a != from && a != to ==> #[trigger] st.balance_of(a) == base.balance_of(a))
    &&& (forall|a: Seq<u8>| #[trigger] st.nonce_of(a) == base.nonce_of(a))
    &&& (forall|a: Seq<u8>| #[trigger] st.code_of(a) == base.code_of(a))
    &&& (forall|a: Seq<u8>, k: Seq<u8>| #[trigger] st.slot_of(a, k) == base.slot_of(a, k))
}

/// The child frame a sub-call runs: fresh stack and memory, the callee's
/// code, a transferred copy of the parent's world state, and one less
/// level of nesting budget.
pub open spec fn child_frame_shape(sub: ExecutionContext, p: ExecutionContext, call: Call) -> bool {
    &&& sub.env.call == call
    &&& sub.target@ == call.recipient@
    &&& sub.code@ == p.state.code_of(call.code_target@)
    &&& sub.pc == 0
    &&& sub.stack@.len() == 0
    &&& sub.memory@.len() == 0
    &&& sub.return_data@.len() == 0
    &&& sub.logs@.len() == 0
    &&& sub.to_delete@.len() == 0
    &&& sub.stopped == false
    &&& sub.depth == p.depth - 1
    &&& transferred_state(sub.state, p.state, call)
}

/// How a completed sub-call relates the parent to the child's run: the
/// child frame was shaped from the call, ran to `subr` by the run
/// relation, the flag encodes its outcome, the child's output is the
/// result, and the parent adopts the child's state exactly on a
/// non-static success.
pub open spec fn call_outcome_shape(p_pre: ExecutionContext, p_post: ExecutionContext, call: Call, r: CallResult, sub0: ExecutionContext, subr: ExecutionContext, ok: bool, mid: ExecutionContext) -> bool {
    &&& child_frame_shape(sub0, p_pre, call)
    &&& run_result_shape(sub0, subr, mid, ok, usize::MAX as nat)
    &&& be_val(r.success@) == (if ok {
        1nat
    } else {
        0nat
    })
    &&& r.result@ == subr.env.call.result@
    &&& ((ok && !call.view_only) ==> p_post.state == subr.state)
    &&& ((!ok || call.view_only) ==> p_post.state == p_pre.state)
    &&& (ok ==> p_post.logs@.len() == p_pre.logs@.len() + subr.logs@.len())
    &&& (!ok ==> p_post.logs == p_pre.logs)
}

/// The whole contract of one frame run, witnessed by the frame state
/// `mid` reached when the loop finished: the code was executed by the
/// step relation within the given budget, the reported flag is that
/// run's outcome, and the queued self-destructions are committed exactly
/// on success.
pub open spec fn run_result_shape(pre: ExecutionContext, post: ExecutionContext, mid: ExecutionContext, ok: bool, fuel: nat) -> bool {
    &&& run_steps(pre, mid, ok, fuel)
    &&& post == (ExecutionContext { state: post.state, ..mid })
    &&& (!ok ==> post.state == mid.state)
    &&& (ok ==> deletions_committed(mid, post.state))
}

} // verus!

verus! {

/// The success bit a terminating control directive reports.
pub open spec fn flag_of(c: ControlFlow) -> bool {
    c is Stop || c is Return
}

/// Deleting the k-th queued address extends the committed prefix by one.
proof fn lemma_deletion_prefix_extends(l: Seq<Address>, k: int, a: Seq<u8>)
    requires
        0 <= k < l.len(),
        l[k]@ == a,
    ensures
        forall|x: Seq<u8>|
            #[trigger] queued_for_deletion(l.take(k + 1), x) <==> (queued_for_deletion(
                l.take(k),
                x,
            ) || x == a),
{
    assert forall|x: Seq<u8>|
        #[trigger] queued_for_deletion(l.take(k + 1), x) <==> (queued_for_deletion(l.take(k), x)
            || x == a) by {
        if queued_for_deletion(l.take(k + 1), x) {
            let i = choose|i: int| 0 <= i < l.take(k + 1).len() && (#[trigger] l.take(k + 1)[i])@
                == x;
            if i < k {
                assert(l.take(k)[i]@ == x);
                assert(queued_for_deletion(l.take(k), x));
            } else {
                assert(l.take(k + 1)[k]@ == a);
            }
        }
        if queued_for_deletion(l.take(k), x) {
            let i = choose|i: int| 0 <= i < l.take(k).len() && (#[trigger] l.take(k)[i])@ == x;
            assert(l.take(k + 1)[i]@ == x);
        }
        if x == a {
            assert(l.take(k + 1)[k]@ == x);
        }
    }
}

} // verus!

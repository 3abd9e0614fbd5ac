//! The stack-based virtual machine and its instruction set.
use vstd::prelude::*;
use vstd::arithmetic::div_mod::{
    lemma_div_basics, lemma_div_is_ordered_by_denominator, lemma_div_pos_is_pos, lemma_mod_bound,
    lemma_small_mod,
};
use crate::backend::program::Program;
use crate::util::{bool_to_i64, i64_to_bool};
use crate::vm::bytecode::{ByteCode, Inst};
use crate::vm::semantics::{
    binary_result, is_binary, is_unary, lemma_wrap_near, trunc_div, trunc_rem, unary_result,
    zeros, Step, VMError, VMView,
};

pub mod bytecode;
pub mod data;
pub mod encoding;
pub mod protocol;
pub mod semantics;
pub mod serialize;

verus! {

/// What a step that met no error reports.
#[derive(Debug, Clone, Copy, PartialEq, Eq, Hash, Structural)]
pub enum VMStatus {
    /// The machine executed `HALT`.
    HALTED,
    /// The machine is ready for its next step.
    RUNNING,
}

/// A machine with a stack of integers, a heap of integers, a program
/// counter and a frame pointer, running a fixed sequence of instructions.
#[derive(Debug)]
pub struct VirtualMachine {
    code: Vec<Inst>,
    stack: Vec<i64>,
    heap: Vec<i64>,
    data_segment: Vec<u64>,
    pc: usize,
    fp: usize,
}

impl View for VirtualMachine {
    type V = VMView;

    closed spec fn view(&self) -> VMView {
        VMView {
            code: self.code@,
            stack: self.stack@,
            heap: self.heap@,
            data_segment: self.data_segment@,
            pc: self.pc as int,
            fp: self.fp as int,
        }
    }
}

/// The state in which a machine starts on a program: empty stack and heap,
/// program counter 0 and frame pointer 1.
pub open spec fn initial_state(code: Seq<Inst>, data_segment: Seq<u64>) -> VMView {
    VMView { code, stack: Seq::empty(), heap: Seq::empty(), data_segment, pc: 0, fp: 1 }
}

/// The quotient of a truncating division lies between the dividend and its
/// negation.
proof fn lemma_trunc_div_bounds(x: int, d: int)
    requires
        d != 0,
    ensures
        x >= 0 ==> -x <= trunc_div(x, d) <= x,
        x < 0 ==> x <= trunc_div(x, d) <= -x,
{
    let a = if x >= 0 {
        x
    } else {
        -x
    };
    let b = if d > 0 {
        d
    } else {
        -d
    };
    lemma_div_pos_is_pos(a, b);
    lemma_div_is_ordered_by_denominator(a, 1, b);
    lemma_div_basics(a);
}

/// Computes a binary opcode; `None` stands for a division by zero.
fn compute_binary(op: ByteCode, lower: i64, upper: i64) -> (r: Option<i64>)
    requires
        is_binary(op),
    ensures
        r == binary_result(op, lower, upper),
{
    proof {
        lemma_wrap_near(lower + upper);
        lemma_wrap_near(lower - upper);
    }
    match op {
        ByteCode::ADD => {
            let r = Some(lower.wrapping_add(upper));
            assert(r == binary_result(op, lower, upper));
            r
        },
        ByteCode::SUB => {
            let r = Some(lower.wrapping_sub(upper));
            assert(r == binary_result(op, lower, upper));
            r
        },
        ByteCode::MUL => {
            let r = Some(lower.wrapping_mul(upper));
            assert(r == binary_result(op, lower, upper));
            r
        },
        ByteCode::DIV => {
            if upper == 0 {
                None
            } else {
                proof {
                    lemma_trunc_div_bounds(lower as int, upper as int);
                    lemma_wrap_near(trunc_div(lower as int, upper as int));
                }
                let r = match lower.checked_div(upper) {
                    Some(q) => Some(q),
                    None => Some(i64::MIN),
                };
                assert(r == binary_result(op, lower, upper));
                r
            }
        },
        ByteCode::MOD => {
            if upper == 0 {
                None
            } else {
                proof {
                    let a = if lower >= 0 {
                        lower as int
                    } else {
                        -(lower as int)
                    };
                    let b = if upper > 0 {
                        upper as int
                    } else {
                        -(upper as int)
                    };
                    lemma_mod_bound(a, b);
                    lemma_small_mod(0, b as nat);
                    lemma_wrap_near(trunc_rem(lower as int, upper as int));
                }
                let r = match lower.checked_rem(upper) {
                    Some(q) => Some(q),
                    None => Some(0),
                };
                assert(r == binary_result(op, lower, upper));
                r
            }
        },
        ByteCode::AND => Some(bool_to_i64(i64_to_bool(lower) && i64_to_bool(upper))),
        ByteCode::OR => Some(bool_to_i64(i64_to_bool(lower) || i64_to_bool(upper))),
        ByteCode::EQ => Some(bool_to_i64(lower == upper)),
        ByteCode::NEQ => Some(bool_to_i64(lower != upper)),
        ByteCode::LE => Some(bool_to_i64(lower < upper)),
        ByteCode::LEQ => Some(bool_to_i64(lower <= upper)),
        ByteCode::GE => Some(bool_to_i64(lower > upper)),
        _ => Some(bool_to_i64(lower >= upper)),
    }
}

/// Computes a unary opcode.
fn compute_unary(op: ByteCode, v: i64) -> (r: i64)
    requires
        is_unary(op),
    ensures
        r == unary_result(op, v),
{
    if op == ByteCode::NEG {
        proof {
            lemma_wrap_near(-v);
        }
        0i64.wrapping_sub(v)
    } else {
        bool_to_i64(!i64_to_bool(v))
    }
}

/// The index that a machine word denotes, if it denotes one.
fn to_index(v: i64) -> (r: Option<usize>)
    ensures
        r is Some <==> 0 <= v <= usize::MAX,
        r matches Some(i) ==> i == v,
{
    if v >= 0 && v as u64 <= usize::MAX as u64 {
        Some(v as usize)
    } else {
        None
    }
}

/// The machine word that holds an index, if one can hold it.
fn to_word(n: usize) -> (r: Option<i64>)
    ensures
        r is Some <==> n <= i64::MAX,
        r matches Some(w) ==> w == n,
{
    if n as u64 <= i64::MAX as u64 {
        Some(n as i64)
    } else {
        None
    }
}

/// Appends `count` zeros.
fn push_zeros(cells: &mut Vec<i64>, count: usize)
    ensures
        final(cells)@ == old(cells)@ + zeros(count as int),
{
    let mut i: usize = 0;
    assert(cells@ =~= old(cells)@ + zeros(0));
    while i < count
        invariant
            i <= count,
            cells@ == old(cells)@ + zeros(i as int),
        decreases count - i,
    {
        cells.push(0);
        i += 1;
        assert(cells@ =~= old(cells)@ + zeros(i as int));
    }
}

impl VirtualMachine {
    /// A machine about to run `prog` from its first instruction.
    pub fn new(prog: Program) -> (r: VirtualMachine)
        ensures
            r@ == initial_state(prog.code@, prog.data_segment@),
    {
        VirtualMachine {
            code: prog.code,
            stack: Vec::new(),
            heap: Vec::new(),
            data_segment: prog.data_segment,
            pc: 0,
            fp: 1,
        }
    }

    /// The stack, bottom first.
    pub fn stack(&self) -> (r: &Vec<i64>)
        ensures
            r@ == self@.stack,
    {
        &self.stack
    }

    /// The heap.
    pub fn heap(&self) -> (r: &Vec<i64>)
        ensures
            r@ == self@.heap,
    {
        &self.heap
    }

    /// The instructions that the machine runs.
    pub fn code(&self) -> (r: &Vec<Inst>)
        ensures
            r@ == self@.code,
    {
        &self.code
    }

    /// The table of struct layouts that came with the program.
    pub fn data_segment(&self) -> (r: &Vec<u64>)
        ensures
            r@ == self@.data_segment,
    {
        &self.data_segment
    }

    /// The index of the next instruction.
    pub fn pc(&self) -> (r: usize)
        ensures
            r == self@.pc,
    {
        self.pc
    }

    /// The frame pointer.
    pub fn fp(&self) -> (r: usize)
        ensures
            r == self@.fp,
    {
        self.fp
    }

    /// Fetches the instruction at the program counter, moves the counter
    /// past it and executes the instruction. The code and the data segment
    /// stay as they are, whether the step succeeds or fails.
    pub fn step(&mut self) -> (r: Result<VMStatus, VMError>)
        ensures
            final(self)@.code == old(self)@.code,
            final(self)@.data_segment == old(self)@.data_segment,
            match old(self)@.step() {
                Step::Running(next) => r == Ok::<VMStatus, VMError>(VMStatus::RUNNING)
                    && final(self)@ == next,
                Step::Halted(next) => r == Ok::<VMStatus, VMError>(VMStatus::HALTED)
                    && final(self)@ == next,
                Step::Fatal(e) => r == Err::<VMStatus, VMError>(e),
            },
    {
        if self.pc >= self.code.len() {
            return Err(VMError::InvalidProgramCounter);
        }
        let inst = self.code[self.pc];
        self.pc += 1;
        let ghost entry = self@;
        let n = self.stack.len();
        match inst.inst {
            ByteCode::HALT => {
                return Ok(VMStatus::HALTED);
            },
            ByteCode::NOP => {},
            ByteCode::POP => {
                if n < 1 {
                    return Err(VMError::StackUnderflow);
                }
                self.stack.pop();
            },
            ByteCode::LOADC => {
                match inst.data {
                    None => {
                        return Err(VMError::InvalidOperand);
                    },
                    Some(d) => {
                        self.stack.push(d);
                    },
                }
            },
            ByteCode::LOADRC => {
                match inst.data {
                    None => {
                        return Err(VMError::InvalidOperand);
                    },
                    Some(d) => {
                        let a: i128 = self.fp as i128 + d as i128;
                        if a < i64::MIN as i128 || a > i64::MAX as i128 {
                            return Err(VMError::AddressOutOfRange);
                        }
                        self.stack.push(a as i64);
                    },
                }
            },
            ByteCode::LOAD => {
                if n < 1 {
                    return Err(VMError::StackUnderflow);
                }
                let addr = self.stack[n - 1];
                self.stack.pop();
                match to_index(addr) {
                    Some(a) => {
                        if a >= n - 1 {
                            return Err(VMError::AddressOutOfRange);
                        }
                        let v = self.stack[a];
                        self.stack.push(v);
                    },
                    None => {
                        return Err(VMError::AddressOutOfRange);
                    },
                }
            },
            ByteCode::LOADA => {
                match inst.data {
                    None => {
                        return Err(VMError::InvalidOperand);
                    },
                    Some(d) => {
                        match to_index(d) {
                            Some(a) => {
                                if a >= n {
                                    return Err(VMError::AddressOutOfRange);
                                }
                                let v = self.stack[a];
                                self.stack.push(v);
                            },
                            None => {
                                return Err(VMError::AddressOutOfRange);
                            },
                        }
                    },
                }
            },
            ByteCode::STORE => {
                if n < 2 {
                    return Err(VMError::StackUnderflow);
                }
                let addr = self.stack[n - 1];
                let value = self.stack[n - 2];
                self.stack.pop();
                match to_index(addr) {
                    Some(a) => {
                        if a == usize::MAX {
                            return Err(VMError::AddressOutOfRange);
                        }
                        if a < n - 1 {
                            self.stack[a] = value;
                        } else {
                            push_zeros(&mut self.stack, a - (n - 1));
                            self.stack.push(value);
                            assert(self.stack@ =~= entry.stack.drop_last() + zeros(
                                a - (n - 1),
                            ) + seq![value]);
                        }
                    },
                    None => {
                        return Err(VMError::AddressOutOfRange);
                    },
                }
            },
            ByteCode::NEW => {
                if n < 1 {
                    return Err(VMError::StackUnderflow);
                }
                let count = self.stack[n - 1];
                let base = self.heap.len();
                if count < 0 || count as u64 > (usize::MAX - base) as u64 {
                    return Err(VMError::HeapOverflow);
                }
                match to_word(base) {
                    Some(b) => {
                        self.stack.pop();
                        self.stack.push(b);
                        push_zeros(&mut self.heap, count as usize);
                    },
                    None => {
                        return Err(VMError::HeapOverflow);
                    },
                }
            },
            ByteCode::STOREH => {
                if n < 2 {
                    return Err(VMError::StackUnderflow);
                }
                let addr = self.stack[n - 1];
                let value = self.stack[n - 2];
                let cells = self.heap.len();
                match to_index(addr) {
                    Some(a) => {
                        if a >= cells {
                            return Err(VMError::AddressOutOfRange);
                        }
                        self.stack.pop();
                        self.heap[a] = value;
                    },
                    None => {
                        return Err(VMError::AddressOutOfRange);
                    },
                }
            },
            ByteCode::JUMP => {
                match inst.data {
                    None => {
                        return Err(VMError::InvalidOperand);
                    },
                    Some(t) => {
                        match to_index(t) {
                            Some(target) => {
                                self.pc = target;
                            },
                            None => {
                                return Err(VMError::AddressOutOfRange);
                            },
                        }
                    },
                }
            },
            ByteCode::JUMPZ => {
                match inst.data {
                    None => {
                        return Err(VMError::InvalidOperand);
                    },
                    Some(t) => {
                        if n < 1 {
                            return Err(VMError::StackUnderflow);
                        }
                        let v = self.stack[n - 1];
                        self.stack.pop();
                        if v == 0 {
                            match to_index(t) {
                                Some(target) => {
                                    self.pc = target;
                                },
                                None => {
                                    return Err(VMError::AddressOutOfRange);
                                },
                            }
                        }
                    },
                }
            },
            ByteCode::MARK => {
                match to_word(self.fp) {
                    Some(w) => {
                        self.stack.push(w);
                    },
                    None => {
                        return Err(VMError::AddressOutOfRange);
                    },
                }
            },
            ByteCode::CALL => {
                if n < 1 {
                    return Err(VMError::StackUnderflow);
                }
                let t = self.stack[n - 1];
                match (to_index(t), to_word(self.pc)) {
                    (Some(target), Some(back)) => {
                        self.stack.pop();
                        self.stack.push(back);
                        self.fp = n;
                        self.pc = target;
                    },
                    _ => {
                        return Err(VMError::AddressOutOfRange);
                    },
                }
            },
            ByteCode::ALLOC => {
                match inst.data {
                    None => {
                        return Err(VMError::InvalidOperand);
                    },
                    Some(k) => {
                        if k < 0 {
                            return Err(VMError::InvalidOperand);
                        }
                        if k as u64 > (usize::MAX - n) as u64 {
                            return Err(VMError::StackOverflow);
                        }
                        push_zeros(&mut self.stack, k as usize);
                    },
                }
            },
            ByteCode::SLIDE => {
                match inst.data {
                    None => {
                        return Err(VMError::InvalidOperand);
                    },
                    Some(k) => {
                        if k < 0 {
                            return Err(VMError::InvalidOperand);
                        }
                        if k as u64 >= n as u64 {
                            return Err(VMError::StackUnderflow);
                        }
                        let top = self.stack[n - 1];
                        self.stack.truncate(n - 1 - k as usize);
                        self.stack.push(top);
                    },
                }
            },
            ByteCode::RET => {
                match inst.data {
                    None => {
                        return Err(VMError::InvalidOperand);
                    },
                    Some(d) => {
                        if self.fp < 2 || self.fp > n {
                            return Err(VMError::AddressOutOfRange);
                        }
                        let new_sp: i128 = self.fp as i128 - d as i128;
                        let back = to_index(self.stack[self.fp - 1]);
                        let frame = to_index(self.stack[self.fp - 2]);
                        if new_sp < 0 || new_sp > n as i128 {
                            return Err(VMError::AddressOutOfRange);
                        }
                        match (back, frame) {
                            (Some(new_pc), Some(new_fp)) => {
                                self.stack.truncate(new_sp as usize);
                                self.pc = new_pc;
                                self.fp = new_fp;
                            },
                            _ => {
                                return Err(VMError::AddressOutOfRange);
                            },
                        }
                    },
                }
            },
            ByteCode::NEG | ByteCode::NOT => {
                if n < 1 {
                    return Err(VMError::StackUnderflow);
                }
                let v = self.stack[n - 1];
                self.stack.pop();
                self.stack.push(compute_unary(inst.inst, v));
            },
            _ => {
                if n < 2 {
                    return Err(VMError::StackUnderflow);
                }
                let upper = self.stack[n - 1];
                let lower = self.stack[n - 2];
                match compute_binary(inst.inst, lower, upper) {
                    None => {
                        return Err(VMError::DivisionByZero);
                    },
                    Some(v) => {
                        self.stack.truncate(n - 2);
                        self.stack.push(v);
                    },
                }
            },
        }
        Ok(VMStatus::RUNNING)
    }

    /// Steps the machine until it halts, fails, or has made `max_steps`
    /// steps. `Ok(RUNNING)` says that the budget ran out first. The code and
    /// the data segment stay as they are on every path.
    pub fn run_bounded(&mut self, max_steps: u64) -> (r: Result<VMStatus, VMError>)
        ensures
            final(self)@.code == old(self)@.code,
            final(self)@.data_segment == old(self)@.data_segment,
            match old(self)@.run(max_steps as nat) {
                Step::Running(last) => r == Ok::<VMStatus, VMError>(VMStatus::RUNNING)
                    && final(self)@ == last,
                Step::Halted(last) => r == Ok::<VMStatus, VMError>(VMStatus::HALTED)
                    && final(self)@ == last,
                Step::Fatal(e) => r == Err::<VMStatus, VMError>(e),
            },
    {
        let mut left = max_steps;
        while left > 0
            invariant
                self@.code == old(self)@.code,
                self@.data_segment == old(self)@.data_segment,
                old(self)@.run(max_steps as nat) == self@.run(left as nat),
            decreases left,
        {
            match self.step() {
                Ok(VMStatus::RUNNING) => {},
                Ok(VMStatus::HALTED) => {
                    return Ok(VMStatus::HALTED);
                },
                Err(e) => {
                    return Err(e);
                },
            }
            left -= 1;
        }
        Ok(VMStatus::RUNNING)
    }

    /// Runs the machine until it halts or fails. The machine gives up with
    /// `StepLimit` after 2^64 - 1 steps. The code and the data segment stay
    /// as they are on every path.
    pub fn run(&mut self) -> (r: Result<(), VMError>)
        ensures
            final(self)@.code == old(self)@.code,
            final(self)@.data_segment == old(self)@.data_segment,
            match old(self)@.run(u64::MAX as nat) {
                Step::Running(last) => r == Err::<(), VMError>(VMError::StepLimit) && final(self)@
                    == last,
                Step::Halted(last) => r == Ok::<(), VMError>(()) && final(self)@ == last,
                Step::Fatal(e) => r == Err::<(), VMError>(e),
            },
    {
        match self.run_bounded(u64::MAX) {
            Ok(VMStatus::HALTED) => Ok(()),
            Ok(VMStatus::RUNNING) => Err(VMError::StepLimit),
            Err(e) => Err(e),
        }
    }
}

} // verus!

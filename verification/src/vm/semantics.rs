//! What the machine does, as a function from one state to the next.
use vstd::prelude::*;
use vstd::arithmetic::div_mod::lemma_fundamental_div_mod_converse;
use crate::util::{spec_bool_to_i64, spec_i64_to_bool};
use crate::vm::bytecode::{ByteCode, Inst};

verus! {

/// Why the machine stopped without reaching `HALT`.
#[derive(Debug, Clone, Copy, PartialEq, Eq, Hash, Structural)]
pub enum VMError {
    /// An instruction needed more values than the stack holds.
    StackUnderflow,
    /// The stack would outgrow what the machine can address.
    StackOverflow,
    /// An address, or a new program counter or frame pointer, lies outside
    /// what it indexes.
    AddressOutOfRange,
    /// The divisor of a `DIV` or `MOD` was zero.
    DivisionByZero,
    /// `NEW` asked for a negative number of cells, or for more than the
    /// heap can hold.
    HeapOverflow,
    /// An instruction that takes an operand has none, or the operand is a
    /// negative count.
    InvalidOperand,
    /// The program counter points at no instruction.
    InvalidProgramCounter,
    /// An operation met values of kinds it is not defined on.
    TypeMismatch,
    /// The machine was still running when its step budget ran out.
    StepLimit,
}

impl VMError {
    /// The text that tells a user of the error.
    pub open spec fn spec_message(self) -> Seq<char> {
        match self {
            VMError::StackUnderflow => "Stack underflow"@,
            VMError::StackOverflow => "Stack overflow"@,
            VMError::AddressOutOfRange => "Address out of range"@,
            VMError::DivisionByZero => "Division by zero"@,
            VMError::HeapOverflow => "Heap overflow"@,
            VMError::InvalidOperand => "Invalid operand"@,
            VMError::InvalidProgramCounter => "Program counter out of range"@,
            VMError::TypeMismatch => "Incompatible Types"@,
            VMError::StepLimit => "Step limit reached"@,
        }
    }

    /// The text that tells a user of the error.
    pub fn message(&self) -> (r: &'static str)
        ensures
            r@ == self.spec_message(),
    {
        match self {
            VMError::StackUnderflow => "Stack underflow",
            VMError::StackOverflow => "Stack overflow",
            VMError::AddressOutOfRange => "Address out of range",
            VMError::DivisionByZero => "Division by zero",
            VMError::HeapOverflow => "Heap overflow",
            VMError::InvalidOperand => "Invalid operand",
            VMError::InvalidProgramCounter => "Program counter out of range",
            VMError::TypeMismatch => "Incompatible Types",
            VMError::StepLimit => "Step limit reached",
        }
    }
}

/// The state of a machine as mathematical values.
pub struct VMView {
    pub code: Seq<Inst>,
    pub stack: Seq<i64>,
    pub heap: Seq<i64>,
    pub data_segment: Seq<u64>,
    pub pc: int,
    pub fp: int,
}

/// The outcome of running a machine for one or more steps.
pub enum Step {
    /// The machine can go on from this state.
    Running(VMView),
    /// The machine executed `HALT` and rests in this state.
    Halted(VMView),
    /// The machine met an error.
    Fatal(VMError),
}

/// The value in the range of `i64` that is congruent to `x` modulo 2^64.
pub open spec fn wrap(x: int) -> i64 {
    let m = x % 0x1_0000_0000_0000_0000;
    if m > i64::MAX {
        (m - 0x1_0000_0000_0000_0000) as i64
    } else {
        m as i64
    }
}

/// Where `x` lies within one range of a word from the `i64` values, `wrap`
/// adds or takes away 2^64 once, or leaves `x` as it is.
pub proof fn lemma_wrap_near(x: int)
    requires
        -0x1_0000_0000_0000_0000 <= x < 0x1_0000_0000_0000_0000,
    ensures
        x > i64::MAX ==> wrap(x) == x - 0x1_0000_0000_0000_0000,
        x < i64::MIN ==> wrap(x) == x + 0x1_0000_0000_0000_0000,
        i64::MIN <= x <= i64::MAX ==> wrap(x) == x,
{
    let range: int = 0x1_0000_0000_0000_0000;
    if x >= 0 {
        lemma_fundamental_div_mod_converse(x, range, 0, x);
    } else {
        lemma_fundamental_div_mod_converse(x, range, -1, x + range);
    }
}

/// The quotient of `x` by `d`, rounded towards zero; `d` is not 0.
pub open spec fn trunc_div(x: int, d: int) -> int {
    if x >= 0 && d > 0 {
        x / d
    } else if x < 0 && d < 0 {
        (-x) / (-d)
    } else if x < 0 {
        -((-x) / d)
    } else {
        -(x / (-d))
    }
}

/// The remainder of `x` by `d` that has the sign of `x`; `d` is not 0.
pub open spec fn trunc_rem(x: int, d: int) -> int {
    let m = if d < 0 {
        -d
    } else {
        d
    };
    if x >= 0 {
        x % m
    } else {
        -((-x) % m)
    }
}

/// Whether the opcode combines the two topmost values of the stack.
pub open spec fn is_binary(op: ByteCode) -> bool {
    match op {
        ByteCode::ADD
        | ByteCode::SUB
        | ByteCode::MUL
        | ByteCode::DIV
        | ByteCode::MOD
        | ByteCode::AND
        | ByteCode::OR
        | ByteCode::EQ
        | ByteCode::NEQ
        | ByteCode::LE
        | ByteCode::LEQ
        | ByteCode::GE
        | ByteCode::GEQ => true,
        _ => false,
    }
}

/// Whether the opcode transforms the topmost value of the stack.
pub open spec fn is_unary(op: ByteCode) -> bool {
    op == ByteCode::NEG || op == ByteCode::NOT
}

/// The result of a binary opcode on `lower`, the value pushed first, and
/// `upper`, the value on top. Sums, differences and products wrap around;
/// the result is `None` for a division or remainder by zero.
pub open spec fn binary_result(op: ByteCode, lower: i64, upper: i64) -> Option<i64> {
    match op {
        ByteCode::ADD => Some(wrap(lower + upper)),
        ByteCode::SUB => Some(wrap(lower - upper)),
        ByteCode::MUL => Some(wrap(lower * upper)),
        ByteCode::DIV => if upper == 0 {
            None
        } else {
            Some(wrap(trunc_div(lower as int, upper as int)))
        },
        ByteCode::MOD => if upper == 0 {
            None
        } else {
            Some(wrap(trunc_rem(lower as int, upper as int)))
        },
        ByteCode::AND => Some(spec_bool_to_i64(spec_i64_to_bool(lower) && spec_i64_to_bool(upper))),
        ByteCode::OR => Some(spec_bool_to_i64(spec_i64_to_bool(lower) || spec_i64_to_bool(upper))),
        ByteCode::EQ => Some(spec_bool_to_i64(lower == upper)),
        ByteCode::NEQ => Some(spec_bool_to_i64(lower != upper)),
        ByteCode::LE => Some(spec_bool_to_i64(lower < upper)),
        ByteCode::LEQ => Some(spec_bool_to_i64(lower <= upper)),
        ByteCode::GE => Some(spec_bool_to_i64(lower > upper)),
        ByteCode::GEQ => Some(spec_bool_to_i64(lower >= upper)),
        _ => None,
    }
}

/// The result of a unary opcode on `v`.
pub open spec fn unary_result(op: ByteCode, v: i64) -> i64 {
    if op == ByteCode::NEG {
        wrap(-v)
    } else {
        spec_bool_to_i64(!spec_i64_to_bool(v))
    }
}

/// `n` zeros.
pub open spec fn zeros(n: int) -> Seq<i64> {
    Seq::new(n as nat, |i: int| 0i64)
}

impl VMView {
    /// The state with another stack.
    pub open spec fn with_stack(self, stack: Seq<i64>) -> VMView {
        VMView { stack, ..self }
    }

    /// The state with one more value on the stack.
    pub open spec fn pushed(self, v: i64) -> VMView {
        VMView { stack: self.stack.push(v), ..self }
    }

    /// The outcome of one fetch-execute cycle.
    pub open spec fn step(self) -> Step {
        if 0 <= self.pc < self.code.len() {
            VMView { pc: self.pc + 1, ..self }.execute(self.code[self.pc])
        } else {
            Step::Fatal(VMError::InvalidProgramCounter)
        }
    }

    /// The outcome of at most `fuel` cycles: the machine runs until it
    /// halts, fails, or has no fuel left.
    pub open spec fn run(self, fuel: nat) -> Step
        decreases fuel,
    {
        if fuel == 0 {
            Step::Running(self)
        } else {
            match self.step() {
                Step::Running(next) => next.run((fuel - 1) as nat),
                other => other,
            }
        }
    }

    /// The effect of the instruction `i` on a state whose program counter
    /// already points behind `i`.
    pub open spec fn execute(self, i: Inst) -> Step {
        let n = self.stack.len() as int;
        match i.inst {
            ByteCode::HALT => Step::Halted(self),
            ByteCode::NOP => Step::Running(self),
            ByteCode::POP => if n < 1 {
                Step::Fatal(VMError::StackUnderflow)
            } else {
                Step::Running(self.with_stack(self.stack.drop_last()))
            },
            ByteCode::LOADC => match i.data {
                None => Step::Fatal(VMError::InvalidOperand),
                Some(d) => Step::Running(self.pushed(d)),
            },
            ByteCode::LOADRC => match i.data {
                None => Step::Fatal(VMError::InvalidOperand),
                Some(d) => if i64::MIN <= self.fp + d <= i64::MAX {
                    Step::Running(self.pushed((self.fp + d) as i64))
                } else {
                    Step::Fatal(VMError::AddressOutOfRange)
                },
            },
            ByteCode::LOAD => if n < 1 {
                Step::Fatal(VMError::StackUnderflow)
            } else {
                let addr = self.stack.last() as int;
                let rest = self.stack.drop_last();
                if 0 <= addr < rest.len() {
                    Step::Running(self.with_stack(rest.push(rest[addr])))
                } else {
                    Step::Fatal(VMError::AddressOutOfRange)
                }
            },
            ByteCode::LOADA => match i.data {
                None => Step::Fatal(VMError::InvalidOperand),
                Some(a) => if 0 <= a < n {
                    Step::Running(self.pushed(self.stack[a as int]))
                } else {
                    Step::Fatal(VMError::AddressOutOfRange)
                },
            },
            ByteCode::STORE => if n < 2 {
                Step::Fatal(VMError::StackUnderflow)
            } else {
                let addr = self.stack.last() as int;
                let rest = self.stack.drop_last();
                let value = rest.last();
                if addr < 0 || addr >= usize::MAX {
                    Step::Fatal(VMError::AddressOutOfRange)
                } else if addr < rest.len() {
                    Step::Running(self.with_stack(rest.update(addr, value)))
                } else {
                    Step::Running(self.with_stack(rest + zeros(addr - rest.len()) + seq![value]))
                }
            },
            ByteCode::NEW => if n < 1 {
                Step::Fatal(VMError::StackUnderflow)
            } else {
                let count = self.stack.last() as int;
                let base = self.heap.len() as int;
                if count < 0 || base + count > usize::MAX || base > i64::MAX {
                    Step::Fatal(VMError::HeapOverflow)
                } else {
                    Step::Running(
                        VMView {
                            stack: self.stack.drop_last().push(base as i64),
                            heap: self.heap + zeros(count),
                            ..self
                        },
                    )
                }
            },
            ByteCode::STOREH => if n < 2 {
                Step::Fatal(VMError::StackUnderflow)
            } else {
                let addr = self.stack.last() as int;
                let rest = self.stack.drop_last();
                if 0 <= addr < self.heap.len() {
                    Step::Running(
                        VMView { stack: rest, heap: self.heap.update(addr, rest.last()), ..self },
                    )
                } else {
                    Step::Fatal(VMError::AddressOutOfRange)
                }
            },
            ByteCode::JUMP => match i.data {
                None => Step::Fatal(VMError::InvalidOperand),
                Some(t) => if 0 <= t <= usize::MAX {
                    Step::Running(VMView { pc: t as int, ..self })
                } else {
                    Step::Fatal(VMError::AddressOutOfRange)
                },
            },
            ByteCode::JUMPZ => match i.data {
                None => Step::Fatal(VMError::InvalidOperand),
                Some(t) => if n < 1 {
                    Step::Fatal(VMError::StackUnderflow)
                } else if self.stack.last() != 0 {
                    Step::Running(self.with_stack(self.stack.drop_last()))
                } else if 0 <= t <= usize::MAX {
                    Step::Running(VMView { stack: self.stack.drop_last(), pc: t as int, ..self })
                } else {
                    Step::Fatal(VMError::AddressOutOfRange)
                },
            },
            ByteCode::MARK => if self.fp <= i64::MAX {
                Step::Running(self.pushed(self.fp as i64))
            } else {
                Step::Fatal(VMError::AddressOutOfRange)
            },
            ByteCode::CALL => if n < 1 {
                Step::Fatal(VMError::StackUnderflow)
            } else {
                let target = self.stack.last() as int;
                if 0 <= target <= usize::MAX && self.pc <= i64::MAX {
                    Step::Running(
                        VMView {
                            stack: self.stack.drop_last().push(self.pc as i64),
                            pc: target,
                            fp: n,
                            ..self
                        },
                    )
                } else {
                    Step::Fatal(VMError::AddressOutOfRange)
                }
            },
            ByteCode::ALLOC => match i.data {
                None => Step::Fatal(VMError::InvalidOperand),
                Some(k) => if k < 0 {
                    Step::Fatal(VMError::InvalidOperand)
                } else if n + k > usize::MAX {
                    Step::Fatal(VMError::StackOverflow)
                } else {
                    Step::Running(self.with_stack(self.stack + zeros(k as int)))
                },
            },
            ByteCode::SLIDE => match i.data {
                None => Step::Fatal(VMError::InvalidOperand),
                Some(k) => if k < 0 {
                    Step::Fatal(VMError::InvalidOperand)
                } else if n < k + 1 {
                    Step::Fatal(VMError::StackUnderflow)
                } else {
                    Step::Running(
                        self.with_stack(self.stack.take(n - k - 1).push(self.stack.last())),
                    )
                },
            },
            ByteCode::RET => match i.data {
                None => Step::Fatal(VMError::InvalidOperand),
                Some(d) => if self.fp < 2 || self.fp > n {
                    Step::Fatal(VMError::AddressOutOfRange)
                } else {
                    let new_sp = self.fp - d;
                    let new_pc = self.stack[self.fp - 1] as int;
                    let new_fp = self.stack[self.fp - 2] as int;
                    if 0 <= new_sp <= n && 0 <= new_pc <= usize::MAX && 0 <= new_fp <= usize::MAX {
                        Step::Running(
                            VMView {
                                stack: self.stack.take(new_sp),
                                pc: new_pc,
                                fp: new_fp,
                                ..self
                            },
                        )
                    } else {
                        Step::Fatal(VMError::AddressOutOfRange)
                    }
                },
            },
            ByteCode::NEG | ByteCode::NOT => if n < 1 {
                Step::Fatal(VMError::StackUnderflow)
            } else {
                Step::Running(
                    self.with_stack(
                        self.stack.drop_last().push(unary_result(i.inst, self.stack.last())),
                    ),
                )
            },
            _ => if n < 2 {
                Step::Fatal(VMError::StackUnderflow)
            } else {
                match binary_result(i.inst, self.stack[n - 2], self.stack[n - 1]) {
                    None => Step::Fatal(VMError::DivisionByZero),
                    Some(r) => Step::Running(self.with_stack(self.stack.take(n - 2).push(r))),
                }
            },
        }
    }
}

} // verus!

//! The calling convention of the machine: how a call builds a frame and
//! how a return and the caller's slide take it down again.
//!
//! A caller reserves a result slot, pushes the arguments from the last to
//! the first, saves its frame pointer with `MARK`, pushes the callee's
//! address and executes `CALL`. The callee then finds its frame pointer just
//! above the saved frame pointer and the return address; the first argument,
//! or the result slot where there is no argument, lies at offset -3.
use vstd::prelude::*;
use crate::vm::bytecode::{ByteCode, Inst};
use crate::vm::semantics::{Step, VMView};

verus! {

/// Running for `a + b` steps is running for `a` steps and then, where the
/// machine still runs, for `b` more.
pub proof fn lemma_run_split(s: VMView, a: nat, b: nat)
    ensures
        s.run(a + b) == match s.run(a) {
            Step::Running(mid) => mid.run(b),
            other => other,
        },
    decreases a,
{
    if a > 0 {
        match s.step() {
            Step::Running(next) => {
                lemma_run_split(next, (a - 1) as nat, b);
                assert(s.run(a + b) == next.run((a - 1 + b) as nat));
            },
            _ => {},
        }
    }
}

/// A machine that has halted or failed within `n` steps gives the same
/// outcome for any greater number of steps.
pub proof fn lemma_run_settles(s: VMView, n: nat, m: nat)
    requires
        n <= m,
        !(s.run(n) is Running),
    ensures
        s.run(m) == s.run(n),
{
    lemma_run_split(s, n, (m - n) as nat);
}

/// Whether the code of `s` holds `i` at the index `at`.
pub open spec fn has_inst(s: VMView, at: int, i: Inst) -> bool {
    0 <= at < s.code.len() && s.code[at] == i
}

/// The call sequence builds the callee's frame.
///
/// Where the program counter stands at `MARK; LOADC target; CALL`, three
/// steps later the stack holds two more cells, the caller's frame pointer
/// and the address behind the `CALL`; the frame pointer points just above
/// them and the machine continues at `target`.
pub proof fn lemma_call_builds_frame(s: VMView, target: i64)
    requires
        has_inst(s, s.pc, Inst { inst: ByteCode::MARK, data: None }),
        has_inst(s, s.pc + 1, Inst { inst: ByteCode::LOADC, data: Some(target) }),
        has_inst(s, s.pc + 2, Inst { inst: ByteCode::CALL, data: None }),
        0 <= s.fp <= i64::MAX,
        s.pc + 3 <= i64::MAX,
        0 <= target <= usize::MAX,
    ensures
        s.run(3) == Step::Running(
            VMView {
                stack: s.stack.push(s.fp as i64).push((s.pc + 3) as i64),
                pc: target as int,
                fp: s.stack.len() as int + 2,
                ..s
            },
        ),
{
    reveal_with_fuel(VMView::run, 4);
    let s1 = VMView { stack: s.stack.push(s.fp as i64), pc: s.pc + 1, ..s };
    assert(s.step() == Step::Running(s1));
    let s2 = VMView { stack: s1.stack.push(target), pc: s.pc + 2, ..s };
    assert(s1.step() == Step::Running(s2));
    let s3 = VMView {
        stack: s.stack.push(s.fp as i64).push((s.pc + 3) as i64),
        pc: target as int,
        fp: s.stack.len() as int + 2,
        ..s
    };
    assert(s2.stack.drop_last() =~= s1.stack);
    assert(s2.step() == Step::Running(s3));
}

/// A return followed by the caller's slide leaves one value more than the
/// stack held before the call.
///
/// Let the frame pointer `fp` stand above a result slot, `k` arguments, the
/// saved frame pointer and the return address, so that the stack held
/// `fp - 3 - k` cells before the caller reserved the result slot. Where the
/// program counter stands at `RET 2` and the return address at `SLIDE k`,
/// two steps later the stack holds those cells and on top of them the cell
/// that lay at offset -3, the caller's frame pointer is back in place, and
/// the machine continues behind the `SLIDE`.
pub proof fn lemma_return_and_slide(s: VMView, k: i64)
    requires
        has_inst(s, s.pc, Inst { inst: ByteCode::RET, data: Some(2) }),
        0 <= k,
        k + 3 <= s.fp <= s.stack.len(),
        0 <= s.stack[s.fp - 1] <= usize::MAX,
        0 <= s.stack[s.fp - 2] <= usize::MAX,
        has_inst(s, s.stack[s.fp - 1] as int, Inst { inst: ByteCode::SLIDE, data: Some(k) }),
    ensures
        s.run(2) == Step::Running(
            VMView {
                stack: s.stack.take(s.fp - 3 - k).push(s.stack[s.fp - 3]),
                pc: s.stack[s.fp - 1] + 1,
                fp: s.stack[s.fp - 2] as int,
                ..s
            },
        ),
        s.stack.take(s.fp - 3 - k).push(s.stack[s.fp - 3]).len() == (s.fp - 3 - k) + 1,
{
    reveal_with_fuel(VMView::run, 3);
    let back = s.stack[s.fp - 1] as int;
    let s1 = VMView {
        stack: s.stack.take(s.fp - 2),
        pc: back,
        fp: s.stack[s.fp - 2] as int,
        ..s
    };
    assert(s.step() == Step::Running(s1));
    let s2 = VMView {
        stack: s.stack.take(s.fp - 3 - k).push(s.stack[s.fp - 3]),
        pc: back + 1,
        ..s1
    };
    assert(s1.stack.last() == s.stack[s.fp - 3]);
    assert(s1.stack.take(s1.stack.len() - k - 1) =~= s.stack.take(s.fp - 3 - k));
    assert(s1.step() == Step::Running(s2));
}

/// Returning a value hands it to the caller as the one value that the call
/// adds to the stack.
///
/// Where the program counter stands at `LOADRC -3; STORE; RET 2` with the
/// value `v` on top of the stack and above the frame, and the return
/// address at `SLIDE k`, four steps later the stack is what it was before
/// the caller reserved the result slot, with `v` on top.
pub proof fn lemma_return_value(s: VMView, k: i64)
    requires
        has_inst(s, s.pc, Inst { inst: ByteCode::LOADRC, data: Some(-3i64) }),
        has_inst(s, s.pc + 1, Inst { inst: ByteCode::STORE, data: None }),
        has_inst(s, s.pc + 2, Inst { inst: ByteCode::RET, data: Some(2) }),
        0 <= k,
        k + 3 <= s.fp < s.stack.len(),
        s.stack.len() <= usize::MAX,
        s.fp - 3 <= i64::MAX,
        0 <= s.stack[s.fp - 1] <= usize::MAX,
        0 <= s.stack[s.fp - 2] <= usize::MAX,
        has_inst(s, s.stack[s.fp - 1] as int, Inst { inst: ByteCode::SLIDE, data: Some(k) }),
    ensures
        s.run(4) == Step::Running(
            VMView {
                stack: s.stack.take(s.fp - 3 - k).push(s.stack.last()),
                pc: s.stack[s.fp - 1] + 1,
                fp: s.stack[s.fp - 2] as int,
                ..s
            },
        ),
{
    let v = s.stack.last();
    let s1 = VMView { stack: s.stack.push((s.fp - 3) as i64), pc: s.pc + 1, ..s };
    assert(s.step() == Step::Running(s1));
    assert(s1.stack.drop_last() =~= s.stack);
    let s2 = VMView { stack: s.stack.update(s.fp - 3, v), pc: s.pc + 2, ..s };
    assert(s1.step() == Step::Running(s2));
    assert(s.run(2) == Step::Running(s2)) by {
        reveal_with_fuel(VMView::run, 3);
    }
    lemma_return_and_slide(s2, k);
    lemma_run_split(s, 2, 2);
    assert(s2.stack.take(s.fp - 3 - k) =~= s.stack.take(s.fp - 3 - k));
}

/// A call and the return from it add one value to the stack.
///
/// Let `k` arguments lie on top of a result slot, and let the program
/// counter stand at `MARK; LOADC target; CALL; SLIDE k`, with a callee at
/// `target` that returns at once with `RET 2`. Five steps later the result
/// slot and the arguments are gone and the value that lay on top, where the
/// callee would have written its result, is left in their place: the stack
/// is one value deeper than it was before the result slot was reserved.
pub proof fn lemma_call_round_trip(s: VMView, k: i64, target: i64)
    requires
        has_inst(s, s.pc, Inst { inst: ByteCode::MARK, data: None }),
        has_inst(s, s.pc + 1, Inst { inst: ByteCode::LOADC, data: Some(target) }),
        has_inst(s, s.pc + 2, Inst { inst: ByteCode::CALL, data: None }),
        has_inst(s, s.pc + 3, Inst { inst: ByteCode::SLIDE, data: Some(k) }),
        has_inst(s, target as int, Inst { inst: ByteCode::RET, data: Some(2) }),
        0 <= k,
        k + 1 <= s.stack.len(),
        0 <= target <= usize::MAX,
        0 <= s.fp <= usize::MAX,
        s.fp <= i64::MAX,
        s.pc + 3 <= i64::MAX,
        s.pc + 3 <= usize::MAX,
    ensures
        s.run(5) == Step::Running(
            VMView {
                stack: s.stack.take(s.stack.len() - k - 1).push(s.stack.last()),
                pc: s.pc + 4,
                ..s
            },
        ),
        s.stack.take(s.stack.len() - k - 1).push(s.stack.last()).len() == (s.stack.len() - k - 1)
            + 1,
{
    lemma_call_builds_frame(s, target);
    let inside = VMView {
        stack: s.stack.push(s.fp as i64).push((s.pc + 3) as i64),
        pc: target as int,
        fp: s.stack.len() as int + 2,
        ..s
    };
    lemma_return_and_slide(inside, k);
    lemma_run_split(s, 3, 2);
    assert(inside.stack.take(inside.fp - 3 - k) =~= s.stack.take(s.stack.len() - k - 1));
    assert(inside.stack[inside.fp - 3] == s.stack.last());
}

/// The machine never writes to its code or to its data segment: a state
/// that it reaches holds the code and the data segment from which it
/// started.
pub proof fn lemma_run_keeps_code(s: VMView, n: nat)
    ensures
        s.run(n) matches Step::Running(t) ==> t.code == s.code && t.data_segment
            == s.data_segment,
        s.run(n) matches Step::Halted(t) ==> t.code == s.code && t.data_segment == s.data_segment,
    decreases n,
{
    if n > 0 {
        match s.step() {
            Step::Running(next) => {
                lemma_run_keeps_code(next, (n - 1) as nat);
            },
            _ => {},
        }
    }
}

} // verus!

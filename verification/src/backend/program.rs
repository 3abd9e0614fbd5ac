//! The artefact that the back end hands to the virtual machine, and the
//! link pass that produces it from the generator's stream.
use vstd::prelude::*;
use crate::backend::assembly_context::{data_segment, AsmCtx};
use crate::error::{CompileError, CompileErrorView};
use crate::util::table::{bindings, find_last, lemma_bound, lemma_push, lemma_unbound};
use crate::vm::bytecode::{
    stream_view, Inst, MetaAsm, MetaAsmView, MetaInst, MetaInstView, MetaVar, MetaVarView,
};

verus! {

/// Everything needed to run a program: its instructions and the read-only
/// table that describes the layout of its structs.
#[derive(Debug, Clone, PartialEq, Eq)]
pub struct Program {
    pub code: Vec<Inst>,
    pub data_segment: Vec<u64>,
}

/// A program as mathematical values.
pub struct ProgramView {
    pub code: Seq<Inst>,
    pub data_segment: Seq<u64>,
}

impl View for Program {
    type V = ProgramView;

    open spec fn view(&self) -> ProgramView {
        ProgramView { code: self.code@, data_segment: self.data_segment@ }
    }
}

/// The instructions among the first `n` items of a stream, in order.
pub open spec fn insts_of(stream: Seq<MetaAsmView>, n: nat) -> Seq<MetaInstView>
    decreases n,
{
    if n == 0 || n > stream.len() {
        Seq::empty()
    } else {
        match stream[n - 1] {
            MetaAsmView::Inst(i) => insts_of(stream, (n - 1) as nat).push(i),
            MetaAsmView::Lbl(_) => insts_of(stream, (n - 1) as nat),
        }
    }
}

/// The positions of the labels among the first `n` items of a stream: a
/// label stands for the index of the instruction that follows it. Where a
/// label occurs twice, its last occurrence counts.
pub open spec fn label_offsets(stream: Seq<MetaAsmView>, n: nat) -> Map<Seq<char>, nat>
    decreases n,
{
    if n == 0 || n > stream.len() {
        Map::empty()
    } else {
        match stream[n - 1] {
            MetaAsmView::Inst(_) => label_offsets(stream, (n - 1) as nat),
            MetaAsmView::Lbl(l) => label_offsets(stream, (n - 1) as nat).insert(
                l,
                insts_of(stream, (n - 1) as nat).len(),
            ),
        }
    }
}

/// The final form of one instruction: a label becomes its position, a
/// function's name the number of its locals.
pub open spec fn resolve(
    i: MetaInstView,
    offsets: Map<Seq<char>, nat>,
    locals: Map<Seq<char>, usize>,
) -> Result<Inst, CompileErrorView> {
    match i.var {
        MetaVarView::Empty => Ok(Inst { inst: i.inst, data: None }),
        MetaVarView::Data(d) => Ok(Inst { inst: i.inst, data: Some(d) }),
        MetaVarView::Label(l) => if !offsets.contains_key(l) {
            Err(CompileErrorView::UnresolvedLabel(l))
        } else if offsets[l] > i64::MAX {
            Err(CompileErrorView::LimitExceeded)
        } else {
            Ok(Inst { inst: i.inst, data: Some(offsets[l] as i64) })
        },
        MetaVarView::LocalAlloc(f) => if !locals.contains_key(f) {
            Err(CompileErrorView::MissingLocalAlloc(f))
        } else if locals[f] > i64::MAX {
            Err(CompileErrorView::LimitExceeded)
        } else {
            Ok(Inst { inst: i.inst, data: Some(locals[f] as i64) })
        },
    }
}

/// The final form of the first `n` instructions, or the error of the first
/// among them that cannot be resolved.
pub open spec fn resolved(
    insts: Seq<MetaInstView>,
    offsets: Map<Seq<char>, nat>,
    locals: Map<Seq<char>, usize>,
    n: nat,
) -> Result<Seq<Inst>, CompileErrorView>
    decreases n,
{
    if n == 0 || n > insts.len() {
        Ok(Seq::empty())
    } else {
        match resolved(insts, offsets, locals, (n - 1) as nat) {
            Err(e) => Err(e),
            Ok(code) => match resolve(insts[n - 1], offsets, locals) {
                Err(e) => Err(e),
                Ok(i) => Ok(code.push(i)),
            },
        }
    }
}

/// The code that a stream links to, given the number of locals of each
/// function.
pub open spec fn link(stream: Seq<MetaAsmView>, locals: Map<Seq<char>, usize>) -> Result<
    Seq<Inst>,
    CompileErrorView,
> {
    let insts = insts_of(stream, stream.len());
    resolved(insts, label_offsets(stream, stream.len()), locals, insts.len())
}

/// Code that links has one instruction for each instruction of the stream,
/// with the same opcode and with the operand that `resolve` gives it.
pub proof fn lemma_resolved_items(
    insts: Seq<MetaInstView>,
    offsets: Map<Seq<char>, nat>,
    locals: Map<Seq<char>, usize>,
    n: nat,
)
    requires
        n <= insts.len(),
        resolved(insts, offsets, locals, n) is Ok,
    ensures
        resolved(insts, offsets, locals, n)->Ok_0.len() == n,
        forall|k: int|
            0 <= k < n ==> resolve(#[trigger] insts[k], offsets, locals) == Ok::<
                Inst,
                CompileErrorView,
            >(resolved(insts, offsets, locals, n)->Ok_0[k]),
    decreases n,
{
    if n > 0 {
        lemma_resolved_items(insts, offsets, locals, (n - 1) as nat);
    }
}

/// A label stands for a position within the code or just behind it.
pub proof fn lemma_label_in_range(stream: Seq<MetaAsmView>, n: nat, l: Seq<char>)
    requires
        n <= stream.len(),
        label_offsets(stream, n).contains_key(l),
    ensures
        label_offsets(stream, n)[l] <= insts_of(stream, n).len(),
    decreases n,
{
    if n > 0 {
        match stream[n - 1] {
            MetaAsmView::Inst(_) => {
                lemma_label_in_range(stream, (n - 1) as nat, l);
            },
            MetaAsmView::Lbl(m) => {
                if m != l {
                    lemma_label_in_range(stream, (n - 1) as nat, l);
                }
            },
        }
    }
}

/// The views of borrowed instructions.
spec fn borrowed_view(insts: Seq<&MetaInst>) -> Seq<MetaInstView> {
    Seq::new(insts.len(), |i: int| insts[i]@)
}

impl AsmCtx {
    /// Resolves the labels and the counts of locals of a stream.
    ///
    /// A first pass records, for each label, the number of instructions
    /// before it, which is the index of the instruction that follows it in
    /// the final code. A second pass gives each instruction its operand.
    /// The pass fails on the first instruction, in the order of the stream,
    /// that names a label without a position or a function without a count
    /// of locals, or whose operand exceeds the range of an operand.
    pub fn link(&self, stream: &Vec<MetaAsm>) -> (r: Result<Vec<Inst>, CompileError>)
        ensures
            match link(stream_view(stream@), self@.locals) {
                Ok(code) => r is Ok && r->Ok_0@ == code,
                Err(e) => r is Err && r->Err_0@ == e,
            },
    {
        let ghost sv = stream_view(stream@);
        let ghost position = |o: usize| o as nat;
        let mut labels: Vec<(String, usize)> = Vec::new();
        let mut insts: Vec<&MetaInst> = Vec::new();
        let mut i: usize = 0;
        assert(borrowed_view(insts@) =~= insts_of(sv, 0));
        while i < stream.len()
            invariant
                i <= stream.len(),
                sv == stream_view(stream@),
                position == |o: usize| o as nat,
                borrowed_view(insts@) == insts_of(sv, i as nat),
                bindings(labels@, position) == label_offsets(sv, i as nat),
            decreases stream.len() - i,
        {
            assert(sv[i as int] == stream@[i as int]@);
            match &stream[i] {
                MetaAsm::Inst(m) => {
                    let ghost before = borrowed_view(insts@);
                    insts.push(m);
                    assert(borrowed_view(insts@) =~= before.push(m@));
                },
                MetaAsm::Lbl(l) => {
                    let name = l.clone();
                    let at = insts.len();
                    proof {
                        lemma_push(labels@, position, name, at);
                    }
                    labels.push((name, at));
                },
            }
            i += 1;
        }
        let ghost all = borrowed_view(insts@);
        let ghost offsets = label_offsets(sv, stream.len() as nat);
        let mut code: Vec<Inst> = Vec::new();
        let mut k: usize = 0;
        while k < insts.len()
            invariant
                k <= insts.len(),
                sv == stream_view(stream@),
                all == borrowed_view(insts@),
                all == insts_of(sv, sv.len()),
                position == |o: usize| o as nat,
                offsets == bindings(labels@, position),
                offsets == label_offsets(sv, sv.len()),
                resolved(all, offsets, self@.locals, k as nat) == Ok::<
                    Seq<Inst>,
                    CompileErrorView,
                >(code@),
            decreases insts.len() - k,
        {
            let m = insts[k];
            assert(all[k as int] == m@);
            let data: Option<i64> = match &m.var {
                MetaVar::Empty => None,
                MetaVar::Data(d) => Some(*d),
                MetaVar::Label(l) => {
                    match find_last(&labels, l.as_str()) {
                        None => {
                            proof {
                                lemma_unbound(labels@, position, l@);
                                lemma_resolved_fails(
                                    all,
                                    offsets,
                                    self@.locals,
                                    (k + 1) as nat,
                                    insts.len() as nat,
                                );
                            }
                            return Err(CompileError::UnresolvedLabel(l.clone()));
                        },
                        Some(at) => {
                            proof {
                                lemma_bound(labels@, position, l@, at as int);
                            }
                            let o = labels[at].1;
                            if o as u64 > i64::MAX as u64 {
                                proof {
                                    lemma_resolved_fails(
                                        all,
                                        offsets,
                                        self@.locals,
                                        (k + 1) as nat,
                                        insts.len() as nat,
                                    );
                                }
                                return Err(CompileError::LimitExceeded);
                            }
                            Some(o as i64)
                        },
                    }
                },
                MetaVar::LocalAlloc(f) => {
                    match self.locals_of(f.as_str()) {
                        None => {
                            proof {
                                lemma_resolved_fails(
                                    all,
                                    offsets,
                                    self@.locals,
                                    (k + 1) as nat,
                                    insts.len() as nat,
                                );
                            }
                            return Err(CompileError::MissingLocalAlloc(f.clone()));
                        },
                        Some(n) => {
                            if n as u64 > i64::MAX as u64 {
                                proof {
                                    lemma_resolved_fails(
                                        all,
                                        offsets,
                                        self@.locals,
                                        (k + 1) as nat,
                                        insts.len() as nat,
                                    );
                                }
                                return Err(CompileError::LimitExceeded);
                            }
                            Some(n as i64)
                        },
                    }
                },
            };
            code.push(Inst { inst: m.inst, data });
            k += 1;
        }
        Ok(code)
    }

    /// Links a stream and lays out the data segment: the whole program.
    pub fn assemble(&self, stream: &Vec<MetaAsm>) -> (r: Result<Program, CompileError>)
        ensures
            match link(stream_view(stream@), self@.locals) {
                Ok(code) => r is Ok && r->Ok_0@ == (ProgramView {
                    code,
                    data_segment: data_segment(self@.md),
                }),
                Err(e) => r is Err && r->Err_0@ == e,
            },
    {
        match self.link(stream) {
            Ok(code) => Ok(Program { code, data_segment: self.assemble_data_segment() }),
            Err(e) => Err(e),
        }
    }
}

/// An error among the first `n` instructions is the error of any longer
/// prefix.
proof fn lemma_resolved_fails(
    insts: Seq<MetaInstView>,
    offsets: Map<Seq<char>, nat>,
    locals: Map<Seq<char>, usize>,
    n: nat,
    m: nat,
)
    requires
        n <= m <= insts.len(),
        resolved(insts, offsets, locals, n) is Err,
    ensures
        resolved(insts, offsets, locals, m) == resolved(insts, offsets, locals, n),
    decreases m,
{
    if n < m {
        lemma_resolved_fails(insts, offsets, locals, n, (m - 1) as nat);
    }
}

} // verus!

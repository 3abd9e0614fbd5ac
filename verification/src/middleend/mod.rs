//! The middle end: what is known about a program before code is generated.
use vstd::prelude::*;
use crate::error::{CompileError, CompileErrorView};
use crate::frontend::ast::{EstaStruct, EstaStructView, Stmt};
use crate::middleend::types::{collected, fits, TypeCollector};

pub mod types;

verus! {

/// The table of the struct types of a program, in the order of their tags.
#[derive(Debug)]
pub struct MetaData {
    pub structs: Vec<EstaStruct>,
}

/// The layouts of a list of structs.
pub open spec fn structs_view(structs: Seq<EstaStruct>) -> Seq<EstaStructView> {
    Seq::new(structs.len(), |i: int| structs[i]@)
}

impl View for MetaData {
    type V = Seq<EstaStructView>;

    open spec fn view(&self) -> Seq<EstaStructView> {
        structs_view(self.structs@)
    }
}

impl MetaData {
    /// A table without structs.
    pub fn new() -> (r: MetaData)
        ensures
            r@ == Seq::<EstaStructView>::empty(),
    {
        let r = MetaData { structs: Vec::new() };
        assert(r@ =~= Seq::<EstaStructView>::empty());
        r
    }
}

impl Clone for MetaData {
    fn clone(&self) -> (r: Self)
        ensures
            r@ == self@,
    {
        let mut structs: Vec<EstaStruct> = Vec::new();
        let mut i: usize = 0;
        while i < self.structs.len()
            invariant
                i <= self.structs.len(),
                structs_view(structs@) == structs_view(self.structs@).take(i as int),
            decreases self.structs.len() - i,
        {
            let ghost before = structs_view(structs@);
            structs.push(self.structs[i].clone());
            assert(structs_view(structs@) =~= before.push(self.structs@[i as int]@));
            assert(structs_view(structs@) =~= structs_view(self.structs@).take(i + 1));
            i += 1;
        }
        assert(structs_view(self.structs@).take(self.structs.len() as int) =~= structs_view(
            self.structs@,
        ));
        MetaData { structs }
    }
}

/// Collects the struct declarations of a program into its metadata and
/// hands the program back with them.
///
/// The call fails with `LimitExceeded` where a struct has more fields than
/// its size can count, and with `NoStructsFound` where the traversal finds
/// no statement to look into, as for an empty block.
pub fn run(stmts: Stmt) -> (r: Result<(Stmt, MetaData), CompileError>)
    ensures
        match r {
            Ok((same, md)) => same == stmts && fits(stmts) && collected(stmts) == Some(md@),
            Err(e) => if fits(stmts) {
                collected(stmts) is None && e@ == CompileErrorView::NoStructsFound
            } else {
                e@ == CompileErrorView::LimitExceeded
            },
        },
{
    if !TypeCollector::within_limits(&stmts) {
        return Err(CompileError::LimitExceeded);
    }
    match TypeCollector::collect_types(&stmts) {
        Some(structs) => {
            let md = MetaData { structs };
            Ok((stmts, md))
        },
        None => Err(CompileError::NoStructsFound),
    }
}

} // verus!

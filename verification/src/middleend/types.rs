//! The traversal that finds the struct declarations of a program.
use vstd::prelude::*;
use crate::frontend::ast::{EstaStruct, EstaStructView, Expr, Stmt};
use crate::middleend::structs_view;

verus! {

/// Whether the traversal of an expression comes back with a list. An
/// expression declares no struct, so the list is empty where there is one.
pub open spec fn expr_yields(e: Expr) -> bool
    decreases e,
{
    match e {
        Expr::BinaryOp(_, _, _) => true,
        Expr::UnaryOp(_, rhs) => expr_yields(*rhs),
        Expr::FunCall(_, args) => args.len() > 0,
        _ => false,
    }
}

/// What a traversal came back with, or nothing.
pub open spec fn flat(found: Option<Seq<EstaStructView>>) -> Seq<EstaStructView> {
    match found {
        Some(s) => s,
        None => Seq::empty(),
    }
}

/// The struct declarations below a statement, in the order in which a walk
/// from left to right meets them, each with the tag 0. The result is `None`
/// where the walk finds nothing to combine: below a declaration, a bare
/// return, or an empty block.
pub open spec fn found(s: Stmt) -> Option<Seq<EstaStructView>>
    decreases s, 0nat,
{
    match s {
        Stmt::Block(body, _) => if body.len() == 0 {
            None
        } else {
            Some(found_all(body, body.len() as nat))
        },
        Stmt::If(_, body, alter) => Some(flat(found(*body)) + flat(found(*alter))),
        Stmt::While(_, body) => Some(flat(found(*body))),
        Stmt::Return(Some(e)) => if expr_yields(*e) {
            Some(Seq::empty())
        } else {
            None
        },
        Stmt::Return(None) => None,
        Stmt::Declaration(_) => None,
        Stmt::FunDecl(_, _, body) => found(*body),
        Stmt::Assignment(_, _) => Some(Seq::empty()),
        Stmt::Struct(id, fields) => Some(seq![EstaStructView::declared(id@, fields@)]),
    }
}

/// The struct declarations below the first `n` statements of a block.
pub open spec fn found_all(body: Vec<Box<Stmt>>, n: nat) -> Seq<EstaStructView>
    decreases body, n,
{
    if n == 0 || n > body.len() {
        Seq::empty()
    } else {
        found_all(body, (n - 1) as nat) + flat(found(*body[n - 1]))
    }
}

/// The structs with their tags set to their places in the list.
pub open spec fn tagged(structs: Seq<EstaStructView>) -> Seq<EstaStructView> {
    Seq::new(structs.len(), |i: int| EstaStructView { tag: i as usize, ..structs[i] })
}

/// The struct table of a program: the declarations found, tagged densely
/// from 0 in the order found.
pub open spec fn collected(s: Stmt) -> Option<Seq<EstaStructView>> {
    match found(s) {
        Some(structs) => Some(tagged(structs)),
        None => None,
    }
}

/// Whether the size of every struct declared below a statement fits the
/// machine's integers.
pub open spec fn fits(s: Stmt) -> bool
    decreases s, 0nat,
{
    match s {
        Stmt::Block(body, _) => fits_all(body, body.len() as nat),
        Stmt::If(_, body, alter) => fits(*body) && fits(*alter),
        Stmt::While(_, body) => fits(*body),
        Stmt::FunDecl(_, _, body) => fits(*body),
        Stmt::Struct(_, fields) => fields.len() + 2 <= usize::MAX,
        _ => true,
    }
}

/// Whether `fits` holds of the first `n` statements of a block.
pub open spec fn fits_all(body: Vec<Box<Stmt>>, n: nat) -> bool
    decreases body, n,
{
    if n == 0 || n > body.len() {
        true
    } else {
        fits_all(body, (n - 1) as nat) && fits(*body[n - 1])
    }
}

/// Walks a program in search of struct declarations.
pub struct TypeCollector;

/// Whether the traversal of `e` comes back with a list.
fn yields(e: &Expr) -> (r: bool)
    ensures
        r == expr_yields(*e),
    decreases e,
{
    match e {
        Expr::BinaryOp(_, _, _) => true,
        Expr::UnaryOp(_, rhs) => yields(rhs),
        Expr::FunCall(_, args) => args.len() > 0,
        _ => false,
    }
}

/// Moves the structs of `more` to the end of `all`.
fn append(all: &mut Vec<EstaStruct>, more: Option<Vec<EstaStruct>>)
    ensures
        structs_view(final(all)@) == structs_view(old(all)@) + flat(
            match more {
                Some(v) => Some(structs_view(v@)),
                None => None,
            },
        ),
{
    match more {
        Some(mut v) => {
            let ghost a = structs_view(all@);
            let ghost b = structs_view(v@);
            all.append(&mut v);
            assert(structs_view(all@) =~= a + b);
        },
        None => {
            assert(structs_view(all@) =~= structs_view(all@) + Seq::<EstaStructView>::empty());
        },
    }
}

/// The declarations below `s`, untagged.
fn find(s: &Stmt) -> (r: Option<Vec<EstaStruct>>)
    requires
        fits(*s),
    ensures
        match r {
            Some(v) => found(*s) == Some(structs_view(v@)),
            None => found(*s) is None,
        },
    decreases s,
{
    match s {
        Stmt::Block(body, _) => {
            if body.len() == 0 {
                return None;
            }
            let mut all: Vec<EstaStruct> = Vec::new();
            let mut i: usize = 0;
            assert(structs_view(all@) =~= found_all(*body, 0));
            while i < body.len()
                invariant
                    i <= body.len(),
                    s is Block,
                    s->Block_0 == body,
                    fits_all(*body, body.len() as nat),
                    structs_view(all@) == found_all(*body, i as nat),
                decreases body.len() - i,
            {
                proof {
                    lemma_fits_all(*body, body.len() as nat, i as int);
                }
                let part = find(&body[i]);
                append(&mut all, part);
                i += 1;
            }
            Some(all)
        },
        Stmt::If(_, body, alter) => {
            let mut all: Vec<EstaStruct> = Vec::new();
            assert(structs_view(all@) =~= Seq::<EstaStructView>::empty());
            let first = find(body);
            append(&mut all, first);
            let second = find(alter);
            append(&mut all, second);
            assert(structs_view(all@) =~= flat(found(**body)) + flat(found(**alter)));
            Some(all)
        },
        Stmt::While(_, body) => {
            let mut all: Vec<EstaStruct> = Vec::new();
            assert(structs_view(all@) =~= Seq::<EstaStructView>::empty());
            let first = find(body);
            append(&mut all, first);
            assert(structs_view(all@) =~= flat(found(**body)));
            Some(all)
        },
        Stmt::Return(Some(e)) => {
            if yields(e) {
                let all: Vec<EstaStruct> = Vec::new();
                assert(structs_view(all@) =~= Seq::<EstaStructView>::empty());
                Some(all)
            } else {
                None
            }
        },
        Stmt::Return(None) => None,
        Stmt::Declaration(_) => None,
        Stmt::FunDecl(_, _, body) => find(body),
        Stmt::Assignment(_, _) => {
            let all: Vec<EstaStruct> = Vec::new();
            assert(structs_view(all@) =~= Seq::<EstaStructView>::empty());
            Some(all)
        },
        Stmt::Struct(id, fields) => {
            let mut all: Vec<EstaStruct> = Vec::new();
            let one = EstaStruct::declare(id.clone(), fields);
            all.push(one);
            assert(structs_view(all@) =~= seq![EstaStructView::declared(id@, fields@)]);
            Some(all)
        },
    }
}

/// What holds of the first `n` statements of a block holds of each of them.
proof fn lemma_fits_all(body: Vec<Box<Stmt>>, n: nat, i: int)
    requires
        fits_all(body, n),
        0 <= i < n <= body.len(),
    ensures
        fits(*body[i]),
    decreases n,
{
    if i < n - 1 {
        lemma_fits_all(body, (n - 1) as nat, i);
    }
}

impl TypeCollector {
    /// Whether the size of every struct declared in `body` fits the
    /// machine's integers.
    pub fn within_limits(body: &Stmt) -> (r: bool)
        ensures
            r == fits(*body),
        decreases body,
    {
        match body {
            Stmt::Block(stmts, _) => {
                let mut i: usize = 0;
                while i < stmts.len()
                    invariant
                        i <= stmts.len(),
                        body is Block,
                        body->Block_0 == stmts,
                        fits_all(*stmts, i as nat),
                    decreases stmts.len() - i,
                {
                    if !Self::within_limits(&stmts[i]) {
                        proof {
                            if fits_all(*stmts, stmts.len() as nat) {
                                lemma_fits_all(*stmts, stmts.len() as nat, i as int);
                            }
                        }
                        return false;
                    }
                    i += 1;
                }
                true
            },
            Stmt::If(_, then, alter) => Self::within_limits(then) && Self::within_limits(alter),
            Stmt::While(_, inner) => Self::within_limits(inner),
            Stmt::FunDecl(_, _, inner) => Self::within_limits(inner),
            Stmt::Struct(_, fields) => fields.len() <= usize::MAX - 2,
            _ => true,
        }
    }

    /// The struct table of a program: its struct declarations in the order
    /// of a walk from left to right, tagged densely from 0. The result is
    /// `None` where the walk finds no statement to look into.
    pub fn collect_types(body: &Stmt) -> (r: Option<Vec<EstaStruct>>)
        requires
            fits(*body),
        ensures
            match r {
                Some(v) => collected(*body) == Some(structs_view(v@)),
                None => collected(*body) is None,
            },
    {
        match find(body) {
            Some(structs) => {
                let ghost untagged = structs_view(structs@);
                let mut all: Vec<EstaStruct> = Vec::new();
                let mut i: usize = 0;
                while i < structs.len()
                    invariant
                        i <= structs.len(),
                        untagged == structs_view(structs@),
                        structs_view(all@) == tagged(untagged).take(i as int),
                    decreases structs.len() - i,
                {
                    let ghost before = structs_view(all@);
                    let mut one = structs[i].clone();
                    one.tag = i;
                    all.push(one);
                    assert(structs_view(all@) =~= before.push(one@));
                    assert(structs_view(all@) =~= tagged(untagged).take(i + 1));
                    i += 1;
                }
                assert(tagged(untagged).take(structs.len() as int) =~= tagged(untagged));
                Some(all)
            },
            None => None,
        }
    }
}

} // verus!

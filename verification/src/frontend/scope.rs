//! Scope resolution: every variable that a program uses is declared in a
//! scope that encloses the use.
//!
//! A block in braces opens a level, and so does a function, which holds its
//! parameters. A declaration adds its name to the innermost level; a
//! variable is in scope where some level holds its name.
use vstd::prelude::*;
use crate::error::{CompileError, CompileErrorView};
use crate::frontend::ast::{Expr, Identifier, Stmt};
use crate::util::same_text;

verus! {

/// The names of each level, outermost first.
pub type Levels = Seq<Set<Seq<char>>>;

/// Whether some level holds the name `id`.
pub open spec fn in_scope(levels: Levels, id: Seq<char>) -> bool {
    exists|i: int| 0 <= i < levels.len() && (#[trigger] levels[i]).contains(id)
}

/// The levels after `id` was declared in the innermost one, of which there
/// must be one.
pub open spec fn declare(levels: Levels, id: Seq<char>) -> Levels {
    levels.drop_last().push(levels.last().insert(id))
}

/// The levels after the first `n` parameters were declared.
pub open spec fn declare_all(levels: Levels, params: Seq<Identifier>, n: nat) -> Levels
    decreases n,
{
    if n == 0 || n > params.len() {
        levels
    } else {
        declare(declare_all(levels, params, (n - 1) as nat), params[n - 1].id@)
    }
}

/// The first variable of an expression, in the order of reading, that is
/// not in scope.
pub open spec fn stray_expr(levels: Levels, e: Expr) -> Option<Seq<char>>
    decreases e, 0nat,
{
    match e {
        Expr::Id(id) => if in_scope(levels, id.id@) {
            None
        } else {
            Some(id.id@)
        },
        Expr::Dot(id, member) => if in_scope(levels, id.id@) {
            match *member {
                Expr::FunCall(_, args) => stray_args(levels, args, args.len() as nat),
                _ => None,
            }
        } else {
            Some(id.id@)
        },
        Expr::Literal(_) => None,
        Expr::List(items) => stray_items(levels, items, items.len() as nat),
        Expr::BinaryOp(lhs, _, rhs) => match stray_expr(levels, *lhs) {
            Some(id) => Some(id),
            None => stray_expr(levels, *rhs),
        },
        Expr::UnaryOp(_, rhs) => stray_expr(levels, *rhs),
        Expr::FunCall(_, args) => stray_args(levels, args, args.len() as nat),
    }
}

/// The first stray variable among the first `n` arguments.
pub open spec fn stray_args(levels: Levels, args: Vec<Expr>, n: nat) -> Option<Seq<char>>
    decreases args, n,
{
    if n == 0 || n > args.len() {
        None
    } else {
        match stray_args(levels, args, (n - 1) as nat) {
            Some(id) => Some(id),
            None => stray_expr(levels, args[n - 1]),
        }
    }
}

/// The first stray variable among the first `n` items of a list.
pub open spec fn stray_items(levels: Levels, items: Vec<Box<Expr>>, n: nat) -> Option<Seq<char>>
    decreases items, n,
{
    if n == 0 || n > items.len() {
        None
    } else {
        match stray_items(levels, items, (n - 1) as nat) {
            Some(id) => Some(id),
            None => stray_expr(levels, *items[n - 1]),
        }
    }
}

/// The levels behind a statement, or the first variable of the statement
/// that is used while it is not in scope. There must be a level.
pub open spec fn checked(levels: Levels, s: Stmt) -> Result<Levels, Seq<char>>
    decreases s, 0nat,
{
    match s {
        Stmt::Block(body, is_scope) => {
            let inner = if is_scope {
                levels.push(Set::empty())
            } else {
                levels
            };
            match checked_all(inner, body, body.len() as nat) {
                Err(id) => Err(id),
                Ok(after) => Ok(
                    if is_scope {
                        after.drop_last()
                    } else {
                        after
                    },
                ),
            }
        },
        Stmt::If(test, body, alter) => match stray_expr(levels, *test) {
            Some(id) => Err(id),
            None => match checked(levels, *body) {
                Err(id) => Err(id),
                Ok(after) => checked(after, *alter),
            },
        },
        Stmt::While(test, body) => match stray_expr(levels, *test) {
            Some(id) => Err(id),
            None => checked(levels, *body),
        },
        Stmt::Return(Some(value)) => match stray_expr(levels, *value) {
            Some(id) => Err(id),
            None => Ok(levels),
        },
        Stmt::Return(None) => Ok(levels),
        Stmt::Declaration(id) => Ok(declare(levels, id.id@)),
        Stmt::FunDecl(_, params, body) => {
            let inner = declare_all(levels.push(Set::empty()), params@, params.len() as nat);
            match checked(inner, *body) {
                Err(id) => Err(id),
                Ok(after) => Ok(after.drop_last()),
            }
        },
        Stmt::Assignment(lhs, rhs) => match stray_expr(levels, *lhs) {
            Some(id) => Err(id),
            None => match stray_expr(levels, *rhs) {
                Some(id) => Err(id),
                None => Ok(levels),
            },
        },
        Stmt::Struct(_, _) => Ok(levels),
    }
}

/// `checked` of the first `n` statements of a block, one after the other.
pub open spec fn checked_all(levels: Levels, body: Vec<Box<Stmt>>, n: nat) -> Result<
    Levels,
    Seq<char>,
>
    decreases body, n,
{
    if n == 0 || n > body.len() {
        Ok(levels)
    } else {
        match checked_all(levels, body, (n - 1) as nat) {
            Err(id) => Err(id),
            Ok(after) => checked(after, *body[n - 1]),
        }
    }
}

/// Whether every variable of a program is in scope where it is used.
pub open spec fn well_scoped(s: Stmt) -> bool {
    checked(seq![Set::empty()], s) is Ok
}

/// The names of one level.
spec fn names_of(level: Seq<String>) -> Set<Seq<char>> {
    Set::new(|id: Seq<char>| exists|i: int| 0 <= i < level.len() && (#[trigger] level[i])@ == id)
}

/// The names in scope: a stack of levels of names, the root level at the
/// bottom.
pub struct Scope {
    enclosures: Vec<Vec<String>>,
}

impl View for Scope {
    type V = Levels;

    closed spec fn view(&self) -> Levels {
        Seq::new(self.enclosures@.len(), |i: int| names_of(self.enclosures@[i]@))
    }
}

impl Scope {
    /// The scopes at the start of a program: the root level alone.
    pub fn new_root() -> (r: Scope)
        ensures
            r@ == seq![Set::<Seq<char>>::empty()],
    {
        let mut enclosures: Vec<Vec<String>> = Vec::new();
        enclosures.push(Vec::new());
        let r = Scope { enclosures };
        assert(r@[0] =~= Set::<Seq<char>>::empty());
        assert(r@ =~= seq![Set::<Seq<char>>::empty()]);
        r
    }

    /// The number of levels.
    pub fn depth(&self) -> (r: usize)
        ensures
            r == self@.len(),
    {
        self.enclosures.len()
    }

    /// Opens a level.
    pub fn push_level(&mut self)
        ensures
            final(self)@ == old(self)@.push(Set::empty()),
    {
        self.enclosures.push(Vec::new());
        assert(self@.last() =~= Set::<Seq<char>>::empty());
        assert(self@ =~= old(self)@.push(Set::empty()));
    }

    /// Removes the innermost level, of which there must be one.
    pub fn pop_level(&mut self)
        requires
            old(self)@.len() > 0,
        ensures
            final(self)@ == old(self)@.drop_last(),
    {
        self.enclosures.pop();
        assert(self@ =~= old(self)@.drop_last());
    }

    /// Declares `id` in the innermost level, of which there must be one.
    pub fn define(&mut self, id: &str)
        requires
            old(self)@.len() > 0,
        ensures
            final(self)@ == declare(old(self)@, id@),
    {
        let n = self.enclosures.len();
        let ghost before = self.enclosures@[n - 1]@;
        let name = id.to_owned();
        self.enclosures[n - 1].push(name);
        proof {
            let after = self.enclosures@[n - 1]@;
            assert(after =~= before.push(name));
            assert(names_of(after) =~= names_of(before).insert(id@)) by {
                assert forall|x: Seq<char>| names_of(after).contains(x) implies names_of(
                    before,
                ).insert(id@).contains(x) by {
                    let i = choose|i: int| 0 <= i < after.len() && (#[trigger] after[i])@ == x;
                    if i < before.len() {
                        assert(before[i]@ == x);
                    }
                }
                assert forall|x: Seq<char>| names_of(before).insert(id@).contains(
                    x,
                ) implies names_of(after).contains(x) by {
                    if x == id@ {
                        assert(after[before.len() as int]@ == x);
                    } else {
                        let i = choose|i: int|
                            0 <= i < before.len() && (#[trigger] before[i])@ == x;
                        assert(after[i]@ == x);
                    }
                }
            }
            assert(self@ =~= declare(old(self)@, id@));
        }
    }

    /// Whether `id` is in scope.
    pub fn lookup_var(&self, id: &str) -> (r: bool)
        ensures
            r == in_scope(self@, id@),
    {
        let mut k: usize = 0;
        while k < self.enclosures.len()
            invariant
                k <= self.enclosures.len(),
                forall|i: int| 0 <= i < k ==> !(#[trigger] self@[i]).contains(id@),
            decreases self.enclosures.len() - k,
        {
            let level = &self.enclosures[k];
            let mut j: usize = 0;
            while j < level.len()
                invariant
                    j <= level.len(),
                    k < self.enclosures.len(),
                    level == self.enclosures@[k as int],
                    forall|i: int| 0 <= i < j ==> (#[trigger] level@[i])@ != id@,
                decreases level.len() - j,
            {
                if same_text(level[j].as_str(), id) {
                    assert(self@[k as int].contains(id@));
                    return true;
                }
                j += 1;
            }
            assert(!self@[k as int].contains(id@));
            k += 1;
        }
        false
    }

    /// The first variable of `e` that is not in scope, if there is one.
    fn visit_expr(&self, e: &Expr) -> (r: Option<String>)
        ensures
            match stray_expr(self@, *e) {
                Some(id) => r is Some && r->Some_0@ == id,
                None => r is None,
            },
        decreases e,
    {
        match e {
            Expr::Id(id) => {
                if self.lookup_var(id.id.as_str()) {
                    None
                } else {
                    Some(id.id.clone())
                }
            },
            Expr::Dot(id, member) => {
                if !self.lookup_var(id.id.as_str()) {
                    return Some(id.id.clone());
                }
                match &**member {
                    Expr::FunCall(_, args) => {
                        let mut n: usize = 0;
                        while n < args.len()
                            invariant
                                n <= args.len(),
                                e is Dot,
                                in_scope(self@, e->Dot_0.id@),
                                *e->Dot_1 is FunCall,
                                (*e->Dot_1)->FunCall_1 == args,
                                stray_args(self@, *args, n as nat) is None,
                            decreases args.len() - n,
                        {
                            match self.visit_expr(&args[n]) {
                                Some(id) => {
                                    proof {
                                        lemma_stray_args(
                                            self@,
                                            *args,
                                            (n + 1) as nat,
                                            args.len() as nat,
                                        );
                                    }
                                    return Some(id);
                                },
                                None => {},
                            }
                            n += 1;
                        }
                        None
                    },
                    _ => None,
                }
            },
            Expr::Literal(_) => None,
            Expr::List(items) => {
                let mut n: usize = 0;
                while n < items.len()
                    invariant
                        n <= items.len(),
                        e is List,
                        e->List_0 == items,
                        stray_items(self@, *items, n as nat) is None,
                    decreases items.len() - n,
                {
                    match self.visit_expr(&items[n]) {
                        Some(id) => {
                            proof {
                                lemma_stray_items(
                                    self@,
                                    *items,
                                    (n + 1) as nat,
                                    items.len() as nat,
                                );
                            }
                            return Some(id);
                        },
                        None => {},
                    }
                    n += 1;
                }
                None
            },
            Expr::BinaryOp(lhs, _, rhs) => match self.visit_expr(lhs) {
                Some(id) => Some(id),
                None => self.visit_expr(rhs),
            },
            Expr::UnaryOp(_, rhs) => self.visit_expr(rhs),
            Expr::FunCall(_, args) => {
                let mut n: usize = 0;
                while n < args.len()
                    invariant
                        n <= args.len(),
                        e is FunCall,
                        e->FunCall_1 == args,
                        stray_args(self@, *args, n as nat) is None,
                    decreases args.len() - n,
                {
                    match self.visit_expr(&args[n]) {
                        Some(id) => {
                            proof {
                                lemma_stray_args(
                                    self@,
                                    *args,
                                    (n + 1) as nat,
                                    args.len() as nat,
                                );
                            }
                            return Some(id);
                        },
                        None => {},
                    }
                    n += 1;
                }
                None
            },
        }
    }

    /// Walks a statement: declares what it declares and looks up what it
    /// uses. The walk ends at the first variable that is not in scope.
    pub fn visit_stmt(&mut self, s: &Stmt) -> (r: Result<(), CompileError>)
        requires
            old(self)@.len() > 0,
        ensures
            match checked(old(self)@, *s) {
                Ok(after) => r is Ok && final(self)@ == after && after.len() == old(self)@.len(),
                Err(id) => r is Err && r->Err_0@ == CompileErrorView::UnknownIdentifier(id),
            },
        decreases s,
    {
        match s {
            Stmt::Block(body, is_scope) => {
                if *is_scope {
                    self.push_level();
                }
                let ghost inner = self@;
                let mut n: usize = 0;
                while n < body.len()
                    invariant
                        n <= body.len(),
                        s is Block,
                        s->Block_0 == body,
                        s->Block_1 == is_scope,
                        inner == if *is_scope {
                            old(self)@.push(Set::empty())
                        } else {
                            old(self)@
                        },
                        inner.len() > 0,
                        checked_all(inner, *body, n as nat) == Ok::<Levels, Seq<char>>(self@),
                        self@.len() == inner.len(),
                    decreases body.len() - n,
                {
                    match self.visit_stmt(&body[n]) {
                        Err(e) => {
                            proof {
                                lemma_checked_all(
                                    inner,
                                    *body,
                                    (n + 1) as nat,
                                    body.len() as nat,
                                );
                            }
                            return Err(e);
                        },
                        Ok(()) => {},
                    }
                    n += 1;
                }
                if *is_scope {
                    self.pop_level();
                }
                Ok(())
            },
            Stmt::If(test, body, alter) => {
                match self.visit_expr(test) {
                    Some(id) => {
                        return Err(CompileError::UnknownIdentifier(id));
                    },
                    None => {},
                }
                match self.visit_stmt(body) {
                    Err(e) => {
                        return Err(e);
                    },
                    Ok(()) => {},
                }
                self.visit_stmt(alter)
            },
            Stmt::While(test, body) => {
                match self.visit_expr(test) {
                    Some(id) => {
                        return Err(CompileError::UnknownIdentifier(id));
                    },
                    None => {},
                }
                self.visit_stmt(body)
            },
            Stmt::Return(Some(value)) => match self.visit_expr(value) {
                Some(id) => Err(CompileError::UnknownIdentifier(id)),
                None => Ok(()),
            },
            Stmt::Return(None) => Ok(()),
            Stmt::Declaration(id) => {
                self.define(id.id.as_str());
                Ok(())
            },
            Stmt::FunDecl(_, params, body) => {
                self.push_level();
                let ghost start = self@;
                let mut n: usize = 0;
                while n < params.len()
                    invariant
                        n <= params.len(),
                        start.len() == old(self)@.len() + 1,
                        self@ == declare_all(start, params@, n as nat),
                        self@.len() == start.len(),
                    decreases params.len() - n,
                {
                    self.define(params[n].id.as_str());
                    n += 1;
                }
                match self.visit_stmt(body) {
                    Err(e) => Err(e),
                    Ok(()) => {
                        self.pop_level();
                        Ok(())
                    },
                }
            },
            Stmt::Assignment(lhs, rhs) => {
                match self.visit_expr(lhs) {
                    Some(id) => {
                        return Err(CompileError::UnknownIdentifier(id));
                    },
                    None => {},
                }
                match self.visit_expr(rhs) {
                    Some(id) => Err(CompileError::UnknownIdentifier(id)),
                    None => Ok(()),
                }
            },
            Stmt::Struct(_, _) => Ok(()),
        }
    }
}

proof fn lemma_stray_args(levels: Levels, args: Vec<Expr>, n: nat, m: nat)
    requires
        n <= m <= args.len(),
        stray_args(levels, args, n) is Some,
    ensures
        stray_args(levels, args, m) == stray_args(levels, args, n),
    decreases m,
{
    if n < m {
        lemma_stray_args(levels, args, n, (m - 1) as nat);
    }
}

proof fn lemma_stray_items(levels: Levels, items: Vec<Box<Expr>>, n: nat, m: nat)
    requires
        n <= m <= items.len(),
        stray_items(levels, items, n) is Some,
    ensures
        stray_items(levels, items, m) == stray_items(levels, items, n),
    decreases m,
{
    if n < m {
        lemma_stray_items(levels, items, n, (m - 1) as nat);
    }
}

proof fn lemma_checked_all(levels: Levels, body: Vec<Box<Stmt>>, n: nat, m: nat)
    requires
        n <= m <= body.len(),
        checked_all(levels, body, n) is Err,
    ensures
        checked_all(levels, body, m) == checked_all(levels, body, n),
    decreases m,
{
    if n < m {
        lemma_checked_all(levels, body, n, (m - 1) as nat);
    }
}

/// Checks the scopes of a program and hands the program back. Where a
/// variable is used that is not in scope, the error names the first such
/// variable.
pub fn discover_scope(stmt: Stmt) -> (r: Result<Stmt, CompileError>)
    ensures
        match checked(seq![Set::empty()], stmt) {
            Ok(_) => r is Ok && r->Ok_0 == stmt,
            Err(id) => r is Err && r->Err_0@ == CompileErrorView::UnknownIdentifier(id),
        },
{
    let mut scope = Scope::new_root();
    match scope.visit_stmt(&stmt) {
        Ok(()) => Ok(stmt),
        Err(e) => Err(e),
    }
}

} // verus!

//! A static allocator: it gives each variable a slot on a stack of
//! enclosures, one enclosure per scope.
use vstd::prelude::*;
use crate::frontend::ast::Expr;
use crate::util::table::{bindings, find_last, lemma_bound, lemma_push, lemma_unbound};

verus! {

/// The slots of one enclosure.
#[derive(Debug)]
pub struct StackInfo {
    top: usize,
    vars: Vec<(String, usize)>,
}

/// An enclosure as mathematical values.
pub struct StackInfoView {
    pub top: usize,
    pub vars: Map<Seq<char>, usize>,
}

impl StackInfoView {
    /// An enclosure without variables.
    pub open spec fn new() -> StackInfoView {
        StackInfoView { top: 0, vars: Map::empty() }
    }

    /// The enclosure after `id` was given the next slot.
    pub open spec fn define(self, id: Seq<char>) -> StackInfoView {
        StackInfoView { top: (self.top + 1) as usize, vars: self.vars.insert(id, self.top) }
    }

    /// The slot of `id`, if the enclosure holds it.
    pub open spec fn lookup(self, id: Seq<char>) -> Option<usize> {
        if self.vars.contains_key(id) {
            Some(self.vars[id])
        } else {
            None
        }
    }
}

impl View for StackInfo {
    type V = StackInfoView;

    closed spec fn view(&self) -> StackInfoView {
        StackInfoView { top: self.top, vars: bindings(self.vars@, |slot: usize| slot) }
    }
}

impl StackInfo {
    /// An enclosure without variables.
    pub fn new() -> (r: StackInfo)
        ensures
            r@ == StackInfoView::new(),
    {
        StackInfo { top: 0, vars: Vec::new() }
    }

    /// Gives `id` the next slot; the value bound to it plays no part.
    pub fn define(&mut self, id: &str, val: &Expr)
        requires
            old(self)@.top < usize::MAX,
        ensures
            final(self)@ == old(self)@.define(id@),
    {
        let name = id.to_owned();
        proof {
            lemma_push(self.vars@, |slot: usize| slot, name, self.top);
        }
        self.vars.push((name, self.top));
        self.top += 1;
    }

    /// The slot of `id`, if the enclosure holds it.
    pub fn lookup(&self, id: &str) -> (r: Option<usize>)
        ensures
            r == self@.lookup(id@),
    {
        match find_last(&self.vars, id) {
            Some(i) => {
                proof {
                    lemma_bound(self.vars@, |slot: usize| slot, id@, i as int);
                }
                Some(self.vars[i].1)
            },
            None => {
                proof {
                    lemma_unbound(self.vars@, |slot: usize| slot, id@);
                }
                None
            },
        }
    }
}

/// The enclosures as mathematical values, outermost first.
pub open spec fn enclosures_view(enclosures: Seq<StackInfo>) -> Seq<StackInfoView> {
    Seq::new(enclosures.len(), |i: int| enclosures[i]@)
}

/// The slot of `id` in the innermost enclosure that holds it.
pub open spec fn innermost(enclosures: Seq<StackInfoView>, id: Seq<char>) -> Option<usize>
    decreases enclosures.len(),
{
    if enclosures.len() == 0 {
        None
    } else {
        match enclosures.last().lookup(id) {
            Some(slot) => Some(slot),
            None => innermost(enclosures.drop_last(), id),
        }
    }
}

/// The allocator: a stack of enclosures, the global one at the bottom.
#[derive(Debug)]
pub struct Allocator {
    enclosures: Vec<StackInfo>,
}

impl View for Allocator {
    type V = Seq<StackInfoView>;

    closed spec fn view(&self) -> Seq<StackInfoView> {
        enclosures_view(self.enclosures@)
    }
}

impl Allocator {
    /// An allocator with the global enclosure alone.
    pub fn new() -> (r: Allocator)
        ensures
            r@ == seq![StackInfoView::new()],
    {
        let mut enclosures: Vec<StackInfo> = Vec::new();
        enclosures.push(StackInfo::new());
        let r = Allocator { enclosures };
        assert(r@ =~= seq![StackInfoView::new()]);
        r
    }

    /// The number of enclosures.
    pub fn depth(&self) -> (r: usize)
        ensures
            r == self@.len(),
    {
        self.enclosures.len()
    }

    /// Opens an enclosure.
    pub fn push_level(&mut self)
        ensures
            final(self)@ == old(self)@.push(StackInfoView::new()),
    {
        self.enclosures.push(StackInfo::new());
        assert(self@ =~= old(self)@.push(StackInfoView::new()));
    }

    /// Removes the innermost enclosure, of which there must be one.
    pub fn pop_level(&mut self)
        requires
            old(self)@.len() > 0,
        ensures
            final(self)@ == old(self)@.drop_last(),
    {
        self.enclosures.pop();
        assert(self@ =~= old(self)@.drop_last());
    }

    /// Gives `id` the next slot of the innermost enclosure, of which there
    /// must be one.
    pub fn define(&mut self, id: &str, val: &Expr)
        requires
            old(self)@.len() > 0,
            old(self)@.last().top < usize::MAX,
        ensures
            final(self)@ == old(self)@.drop_last().push(old(self)@.last().define(id@)),
    {
        let n = self.enclosures.len();
        assert(self@[n - 1] == self.enclosures@[n - 1]@);
        self.enclosures[n - 1].define(id, val);
        assert(self@ =~= old(self)@.drop_last().push(old(self)@.last().define(id@)));
    }

    /// The slot of `id` in the innermost enclosure that holds it.
    pub fn lookup(&mut self, id: &str) -> (r: Option<usize>)
        ensures
            final(self)@ == old(self)@,
            r == innermost(old(self)@, id@),
    {
        let ghost all = self@;
        let mut k: usize = self.enclosures.len();
        assert(all.take(k as int) =~= all);
        while k > 0
            invariant
                k <= self.enclosures.len(),
                all == self@,
                self@ == old(self)@,
                innermost(all, id@) == innermost(all.take(k as int), id@),
            decreases k,
        {
            proof {
                assert(all.take(k as int).drop_last() =~= all.take(k - 1));
                assert(all.take(k as int).last() == self.enclosures@[k - 1]@);
            }
            k -= 1;
            match self.enclosures[k].lookup(id) {
                Some(slot) => {
                    return Some(slot);
                },
                None => {},
            }
        }
        None
    }
}

} // verus!

//! One level of lexical scope: where its variables live in the frame.
use vstd::prelude::*;
use crate::util::table::{bindings, find_last, lemma_bound, lemma_push, lemma_unbound};

verus! {

/// The offset of the first parameter, relative to the frame pointer: the two
/// cells below the frame pointer hold the caller's frame pointer and the
/// return address.
pub const FIRST_ARGUMENT: i64 = -3;

/// A scope level: the offsets, relative to the frame pointer, of the names
/// declared in it, the offset for the next local variable and the offset for
/// the next parameter.
#[derive(Debug)]
pub struct Alloc {
    scope: Vec<(String, i64)>,
    top: i64,
    bot: i64,
}

/// A scope level as mathematical values.
pub struct AllocView {
    pub scope: Map<Seq<char>, i64>,
    pub top: i64,
    pub bot: i64,
}

impl AllocView {
    /// A level without names: locals start at offset 0, parameters at -3.
    pub open spec fn new() -> AllocView {
        AllocView { scope: Map::empty(), top: 0, bot: FIRST_ARGUMENT }
    }

    /// The level after `id` was given the next local slot.
    pub open spec fn define(self, id: Seq<char>) -> AllocView {
        AllocView { scope: self.scope.insert(id, self.top), top: (self.top + 1) as i64, bot: self.bot }
    }

    /// The level after `id` was given the next parameter slot.
    pub open spec fn define_arg(self, id: Seq<char>) -> AllocView {
        AllocView { scope: self.scope.insert(id, self.bot), top: self.top, bot: (self.bot - 1) as i64 }
    }

    /// The offset of `id`, if the level declares it.
    pub open spec fn get(self, id: Seq<char>) -> Option<i64> {
        if self.scope.contains_key(id) {
            Some(self.scope[id])
        } else {
            None
        }
    }
}

impl View for Alloc {
    type V = AllocView;

    closed spec fn view(&self) -> AllocView {
        AllocView { scope: bindings(self.scope@, |o: i64| o), top: self.top, bot: self.bot }
    }
}

impl Clone for Alloc {
    fn clone(&self) -> (r: Self)
        ensures
            r@ == self@,
    {
        let mut scope: Vec<(String, i64)> = Vec::new();
        let mut i: usize = 0;
        let ghost f = |o: i64| o;
        assert(self.scope@.take(0) =~= Seq::empty());
        while i < self.scope.len()
            invariant
                i <= self.scope.len(),
                f == |o: i64| o,
                bindings(scope@, f) == bindings(self.scope@.take(i as int), f),
            decreases self.scope.len() - i,
        {
            let name = self.scope[i].0.clone();
            let offset = self.scope[i].1;
            proof {
                lemma_push(scope@, f, name, offset);
                lemma_push(self.scope@.take(i as int), f, self.scope@[i as int].0, offset);
                assert(self.scope@.take(i as int).push(self.scope@[i as int]) =~= self.scope@.take(
                    i + 1,
                ));
            }
            scope.push((name, offset));
            i += 1;
        }
        assert(self.scope@.take(self.scope.len() as int) =~= self.scope@);
        Alloc { scope, top: self.top, bot: self.bot }
    }
}

impl Alloc {
    /// A level without names.
    pub fn new() -> (r: Self)
        ensures
            r@ == AllocView::new(),
    {
        Alloc { scope: Vec::new(), top: 0, bot: FIRST_ARGUMENT }
    }

    /// The offset that the next local variable will get.
    pub fn top(&self) -> (r: i64)
        ensures
            r == self@.top,
    {
        self.top
    }

    /// The offset that the next parameter will get.
    pub fn bot(&self) -> (r: i64)
        ensures
            r == self@.bot,
    {
        self.bot
    }

    /// Gives `id` the next local slot.
    pub fn define(&mut self, id: &str)
        requires
            old(self)@.top < i64::MAX,
        ensures
            final(self)@ == old(self)@.define(id@),
    {
        let name = id.to_owned();
        proof {
            lemma_push(self.scope@, |o: i64| o, name, self.top);
        }
        self.scope.push((name, self.top));
        self.top += 1;
    }

    /// Gives `id` the next parameter slot.
    pub fn define_arg(&mut self, id: &str)
        requires
            old(self)@.bot > i64::MIN,
        ensures
            final(self)@ == old(self)@.define_arg(id@),
    {
        let name = id.to_owned();
        proof {
            lemma_push(self.scope@, |o: i64| o, name, self.bot);
        }
        self.scope.push((name, self.bot));
        self.bot -= 1;
    }

    /// The offset of `id`, if this level declares it.
    pub fn get(&self, id: &str) -> (r: Option<i64>)
        ensures
            r == self@.get(id@),
    {
        match find_last(&self.scope, id) {
            Some(i) => {
                proof {
                    lemma_bound(self.scope@, |o: i64| o, id@, i as int);
                }
                Some(self.scope[i].1)
            },
            None => {
                proof {
                    lemma_unbound(self.scope@, |o: i64| o, id@);
                }
                None
            },
        }
    }
}

} // verus!

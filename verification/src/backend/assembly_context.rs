//! The state of the code generator: which function is being emitted, where
//! its variables live, how many locals each function has, and the counter
//! that makes labels unique.
use vstd::prelude::*;
use crate::backend::allocation::{Alloc, AllocView};
use crate::error::{CompileError, CompileErrorView};
use crate::frontend::ast::{EstaStruct, EstaStructView};
use crate::middleend::MetaData;
use crate::util::stack::Stack;
use crate::util::table::{
    bindings, find_last, is_last_binding, lemma_bound, lemma_push, lemma_unbound, lemma_update,
};
use crate::util::text::{
    decimal, decimal_string, digit_value, lemma_decimal_digits, lemma_decimal_injective,
};
use crate::util::{same_text, spec_string_hash32, string_hash32};

verus! {

/// The name under which code outside any function is emitted.
pub open spec fn global_name() -> Seq<char> {
    "GLOBAL"@
}

/// The label with the given number in the function `base`: the name, an
/// underscore and the number in decimal.
pub open spec fn label_name(base: Seq<char>, number: nat) -> Seq<char> {
    base + seq!['_'] + decimal(number)
}

/// Labels with different numbers differ, whatever the functions they
/// belong to: the number of a label is what follows its last underscore.
/// Since the generator never hands out a number twice, it never hands out a
/// label twice.
pub proof fn lemma_labels_differ(base: Seq<char>, number: nat, other: Seq<char>, another: nat)
    requires
        number != another,
    ensures
        label_name(base, number) != label_name(other, another),
{
    let a = label_name(base, number);
    let b = label_name(other, another);
    lemma_decimal_digits(number);
    lemma_decimal_digits(another);
    if a == b {
        let m = base.len() as int;
        let n = other.len() as int;
        assert(a.len() == m + 1 + decimal(number).len());
        assert(b.len() == n + 1 + decimal(another).len());
        assert(a[m] == '_');
        assert(b[n] == '_');
        if m < n {
            assert(a[n] == decimal(number)[n - m - 1]);
            assert(digit_value(decimal(number)[n - m - 1]) is Some);
        } else if n < m {
            assert(b[m] == decimal(another)[m - n - 1]);
            assert(digit_value(decimal(another)[m - n - 1]) is Some);
        } else {
            assert(a.skip(m + 1) =~= decimal(number));
            assert(b.skip(n + 1) =~= decimal(another));
            lemma_decimal_injective(number, another);
        }
    }
}

/// The scope levels of a stack as mathematical values, outermost first.
pub open spec fn allocs_view(levels: Seq<Alloc>) -> Seq<AllocView> {
    Seq::new(levels.len(), |i: int| levels[i]@)
}

/// The offset of `id` in the innermost level that declares it.
pub open spec fn lookup(levels: Seq<AllocView>, id: Seq<char>) -> Option<i64>
    decreases levels.len(),
{
    if levels.len() == 0 {
        None
    } else {
        match levels.last().get(id) {
            Some(offset) => Some(offset),
            None => lookup(levels.drop_last(), id),
        }
    }
}

/// The first struct of the table that is named `id`.
pub open spec fn first_named(structs: Seq<EstaStructView>, id: Seq<char>) -> Option<
    EstaStructView,
>
    decreases structs.len(),
{
    if structs.len() == 0 {
        None
    } else if structs[0].id == id {
        Some(structs[0])
    } else {
        first_named(structs.drop_first(), id)
    }
}

/// The state of the code generator as mathematical values.
pub struct AsmCtxView {
    /// The function being emitted.
    pub base: Seq<char>,
    /// The scope levels of each function, outermost first.
    pub scopes: Map<Seq<char>, Seq<AllocView>>,
    /// The number of locals reserved so far in each function.
    pub locals: Map<Seq<char>, usize>,
    /// The number of parameters of the function being emitted.
    pub args: usize,
    /// The number of the next label.
    pub suffix: usize,
    /// The struct table.
    pub md: Seq<EstaStructView>,
}

impl AsmCtxView {
    /// Whether the function being emitted has a frame: a scope stack and a
    /// count of locals. A function has one from the moment it is started.
    pub open spec fn has_frame(self) -> bool {
        self.scopes.contains_key(self.base) && self.locals.contains_key(self.base)
    }

    /// Whether the function being emitted has a frame with at least one
    /// scope level open.
    pub open spec fn has_level(self) -> bool {
        self.has_frame() && self.scopes[self.base].len() > 0
    }

    /// Whether the function being emitted and the top level both have a
    /// frame: the state in which code can be generated.
    pub open spec fn wf(self) -> bool {
        &&& self.has_frame()
        &&& self.scopes.contains_key(global_name())
        &&& self.locals.contains_key(global_name())
    }

    /// The state of a new generator: named for the top level, without any
    /// frame.
    pub open spec fn new(md: Seq<EstaStructView>) -> AsmCtxView {
        AsmCtxView {
            base: global_name(),
            scopes: Map::empty(),
            locals: Map::empty(),
            args: 0,
            suffix: 0,
            md,
        }
    }

    /// The state in which the generation of a program starts: the top level
    /// was started like a function without parameters, so that it has a
    /// frame with one scope level.
    pub open spec fn top_level(md: Seq<EstaStructView>) -> AsmCtxView {
        Self::new(md).add_fun(global_name(), 0)
    }

    /// The scope levels of the function being emitted.
    pub open spec fn levels(self) -> Seq<AllocView> {
        self.scopes[self.base]
    }

    /// The state with other scope levels for the function being emitted.
    pub open spec fn with_levels(self, levels: Seq<AllocView>) -> AsmCtxView {
        AsmCtxView { scopes: self.scopes.insert(self.base, levels), ..self }
    }

    /// The label that `next_label` hands out in this state.
    pub open spec fn label(self) -> Seq<char> {
        label_name(self.base, self.suffix as nat)
    }

    /// Whether another label can be numbered.
    pub open spec fn can_label(self) -> bool {
        self.suffix < usize::MAX
    }

    /// The state after a label was handed out.
    pub open spec fn next_label(self) -> AsmCtxView {
        AsmCtxView { suffix: (self.suffix + 1) as usize, ..self }
    }

    /// The state after a scope level was opened.
    pub open spec fn push_scope(self) -> AsmCtxView {
        self.with_levels(self.levels().push(AllocView::new()))
    }

    /// The state after the innermost scope level was closed; unchanged
    /// where no level is open.
    pub open spec fn pop_scope(self) -> AsmCtxView {
        if self.levels().len() > 0 {
            self.with_levels(self.levels().drop_last())
        } else {
            self
        }
    }

    /// The state at the start of the function `id` with `params`
    /// parameters.
    pub open spec fn add_fun(self, id: Seq<char>, params: usize) -> AsmCtxView {
        AsmCtxView {
            base: id,
            scopes: self.scopes.insert(id, seq![AllocView::new()]),
            locals: self.locals.insert(id, 0usize),
            args: params,
            ..self
        }
    }

    /// The state after a function was finished: back at the top level.
    pub open spec fn pop_fun(self) -> AsmCtxView {
        AsmCtxView { base: global_name(), ..self }
    }

    /// Whether another local can be counted and placed.
    pub open spec fn can_define(self) -> bool {
        self.locals[self.base] < usize::MAX && self.levels().last().top < i64::MAX
    }

    /// The state after `id` was given a local slot in the innermost level.
    pub open spec fn define(self, id: Seq<char>) -> AsmCtxView {
        AsmCtxView {
            scopes: self.scopes.insert(
                self.base,
                self.levels().drop_last().push(self.levels().last().define(id)),
            ),
            locals: self.locals.insert(self.base, (self.locals[self.base] + 1) as usize),
            ..self
        }
    }

    /// Whether another parameter can be placed.
    pub open spec fn can_define_arg(self) -> bool {
        self.levels().last().bot > i64::MIN
    }

    /// The state after `id` was given a parameter slot in the innermost
    /// level.
    pub open spec fn define_arg(self, id: Seq<char>) -> AsmCtxView {
        self.with_levels(self.levels().drop_last().push(self.levels().last().define_arg(id)))
    }

    /// The offset of `id`: that of the innermost level of the function
    /// being emitted that declares it.
    pub open spec fn get(self, id: Seq<char>) -> Option<i64> {
        lookup(self.levels(), id)
    }

    /// The number of locals of the function `name`, if it was ever started.
    pub open spec fn locals_of(self, name: Seq<char>) -> Option<usize> {
        if self.locals.contains_key(name) {
            Some(self.locals[name])
        } else {
            None
        }
    }

    /// The struct named `id`.
    pub open spec fn get_esta_struct(self, id: Seq<char>) -> Option<EstaStructView> {
        first_named(self.md, id)
    }
}

/// What the generator knows of one function.
#[derive(Debug)]
struct FunFrame {
    scopes: Stack<Alloc>,
    locals: usize,
}

/// The state of the code generator.
#[derive(Debug)]
pub struct AsmCtx {
    base: String,
    funs: Vec<(String, FunFrame)>,
    args: usize,
    suffix: usize,
    md: MetaData,
}

impl View for AsmCtx {
    type V = AsmCtxView;

    closed spec fn view(&self) -> AsmCtxView {
        AsmCtxView {
            base: self.base@,
            scopes: bindings(self.funs@, |f: FunFrame| allocs_view(f.scopes@)),
            locals: bindings(self.funs@, |f: FunFrame| f.locals),
            args: self.args,
            suffix: self.suffix,
            md: self.md@,
        }
    }
}

impl AsmCtx {
    /// The place of the frame of the function being emitted.
    fn current(&self) -> (i: usize)
        requires
            self@.has_frame(),
        ensures
            is_last_binding(self.funs@, self@.base, i as int),
            self@.scopes[self@.base] == allocs_view(self.funs@[i as int].1.scopes@),
            self@.locals[self@.base] == self.funs@[i as int].1.locals,
    {
        let ghost levels = |f: FunFrame| allocs_view(f.scopes@);
        let ghost count = |f: FunFrame| f.locals;
        match find_last(&self.funs, self.base.as_str()) {
            Some(i) => {
                proof {
                    lemma_bound(self.funs@, levels, self.base@, i as int);
                    lemma_bound(self.funs@, count, self.base@, i as int);
                }
                i
            },
            None => {
                proof {
                    lemma_unbound(self.funs@, levels, self.base@);
                }
                0
            },
        }
    }

    /// A generator named for the top level, without any frame: no function
    /// was started yet.
    pub fn new(md: MetaData) -> (r: AsmCtx)
        ensures
            r@ == AsmCtxView::new(md@),
    {
        let r = AsmCtx { base: "GLOBAL".to_owned(), funs: Vec::new(), args: 0, suffix: 0, md };
        assert(r@.scopes =~= AsmCtxView::new(md@).scopes);
        assert(r@.locals =~= AsmCtxView::new(md@).locals);
        r
    }

    /// Whether the function being emitted has a frame.
    pub fn has_frame(&self) -> (r: bool)
        ensures
            r == self@.has_frame(),
    {
        match find_last(&self.funs, self.base.as_str()) {
            Some(i) => {
                proof {
                    lemma_bound(self.funs@, |f: FunFrame| allocs_view(f.scopes@), self.base@, i as int);
                    lemma_bound(self.funs@, |f: FunFrame| f.locals, self.base@, i as int);
                }
                true
            },
            None => {
                proof {
                    lemma_unbound(self.funs@, |f: FunFrame| allocs_view(f.scopes@), self.base@);
                }
                false
            },
        }
    }

    /// Whether the function being emitted has a frame with a scope level
    /// open.
    pub fn has_level(&self) -> (r: bool)
        ensures
            r == self@.has_level(),
    {
        match find_last(&self.funs, self.base.as_str()) {
            Some(i) => {
                proof {
                    lemma_bound(self.funs@, |f: FunFrame| allocs_view(f.scopes@), self.base@, i as int);
                    lemma_bound(self.funs@, |f: FunFrame| f.locals, self.base@, i as int);
                }
                self.funs[i].1.scopes.len() > 0
            },
            None => {
                proof {
                    lemma_unbound(self.funs@, |f: FunFrame| allocs_view(f.scopes@), self.base@);
                }
                false
            },
        }
    }

    /// Whether the function being emitted and the top level both have a
    /// frame, so that code can be generated.
    pub fn is_ready(&self) -> (r: bool)
        ensures
            r == self@.wf(),
    {
        let top = match find_last(&self.funs, "GLOBAL") {
            Some(i) => {
                proof {
                    lemma_bound(self.funs@, |f: FunFrame| allocs_view(f.scopes@), "GLOBAL"@, i as int);
                    lemma_bound(self.funs@, |f: FunFrame| f.locals, "GLOBAL"@, i as int);
                }
                true
            },
            None => {
                proof {
                    lemma_unbound(self.funs@, |f: FunFrame| allocs_view(f.scopes@), "GLOBAL"@);
                }
                false
            },
        };
        top && self.has_frame()
    }

    /// The name of the function being emitted.
    pub fn base(&self) -> (r: &String)
        ensures
            r@ == self@.base,
    {
        &self.base
    }

    /// The number of parameters of the function being emitted.
    pub fn args(&self) -> (r: usize)
        ensures
            r == self@.args,
    {
        self.args
    }

    /// The number of the next label.
    pub fn suffix(&self) -> (r: usize)
        ensures
            r == self@.suffix,
    {
        self.suffix
    }

    /// The struct table.
    pub fn metadata(&self) -> (r: &MetaData)
        ensures
            r@ == self@.md,
    {
        &self.md
    }

    /// The number of locals of the function `name`, if it was ever started.
    pub fn locals_of(&self, name: &str) -> (r: Option<usize>)
        ensures
            r == self@.locals_of(name@),
    {
        match find_last(&self.funs, name) {
            Some(i) => {
                proof {
                    lemma_bound(self.funs@, |f: FunFrame| f.locals, name@, i as int);
                }
                Some(self.funs[i].1.locals)
            },
            None => {
                proof {
                    lemma_unbound(self.funs@, |f: FunFrame| f.locals, name@);
                }
                None
            },
        }
    }

    /// Whether `next_label` can number another label.
    pub fn can_label(&self) -> (r: bool)
        ensures
            r == self@.can_label(),
    {
        self.suffix < usize::MAX
    }

    /// Hands out a label that no earlier call handed out in this function:
    /// the function's name, an underscore and the number of the label.
    pub fn next_label(&mut self) -> (r: String)
        requires
            old(self)@.can_label(),
        ensures
            r@ == old(self)@.label(),
            final(self)@ == old(self)@.next_label(),
    {
        let mut label = self.base.clone();
        label.append("_");
        let number = decimal_string(self.suffix);
        label.append(number.as_str());
        proof {
            reveal_strlit("_");
            assert("_"@ =~= seq!['_']);
        }
        self.suffix += 1;
        label
    }
}

impl AsmCtx {
    /// Opens a scope level in the function being emitted, which must have
    /// a frame.
    pub fn push_scope(&mut self)
        requires
            old(self)@.has_frame(),
        ensures
            final(self)@ == old(self)@.push_scope(),
    {
        let i = self.current();
        let ghost before = self.funs@;
        let ghost levels = |f: FunFrame| allocs_view(f.scopes@);
        let ghost count = |f: FunFrame| f.locals;
        self.funs[i].1.scopes.push(Alloc::new());
        proof {
            let frame = self.funs@[i as int].1;
            assert(self.funs@ =~= before.update(i as int, (before[i as int].0, frame)));
            lemma_update(before, levels, i as int, frame);
            lemma_update(before, count, i as int, frame);
            assert(allocs_view(frame.scopes@) =~= allocs_view(before[i as int].1.scopes@).push(
                AllocView::new(),
            ));
            assert(self@.scopes =~= old(self)@.push_scope().scopes);
            assert(self@.locals =~= old(self)@.push_scope().locals);
        }
    }

    /// Closes the innermost scope level of the function being emitted,
    /// which must have a frame. The names of that level are then unknown.
    /// Where no level is open, nothing changes.
    pub fn pop_scope(&mut self)
        requires
            old(self)@.has_frame(),
        ensures
            final(self)@ == old(self)@.pop_scope(),
            old(self)@.levels().len() > 0 ==> final(self)@.levels() == old(
                self,
            )@.levels().drop_last(),
    {
        let i = self.current();
        let ghost before = self.funs@;
        let ghost levels = |f: FunFrame| allocs_view(f.scopes@);
        let ghost count = |f: FunFrame| f.locals;
        if self.funs[i].1.scopes.len() > 0 {
            self.funs[i].1.scopes.pop();
            proof {
                let frame = self.funs@[i as int].1;
                assert(self.funs@ =~= before.update(i as int, (before[i as int].0, frame)));
                lemma_update(before, levels, i as int, frame);
                lemma_update(before, count, i as int, frame);
                assert(allocs_view(frame.scopes@) =~= allocs_view(
                    before[i as int].1.scopes@,
                ).drop_last());
                assert(self@.scopes =~= old(self)@.pop_scope().scopes);
                assert(self@.locals =~= old(self)@.pop_scope().locals);
            }
        }
    }

    /// Starts the function `id` with `params` parameters: it gets a fresh
    /// scope stack of one level and a count of locals of 0, and becomes the
    /// function being emitted.
    pub fn add_fun(&mut self, id: &str, params: usize)
        ensures
            final(self)@ == old(self)@.add_fun(id@, params),
    {
        let mut scopes: Stack<Alloc> = Stack::new();
        scopes.push(Alloc::new());
        let name = id.to_owned();
        let frame = FunFrame { scopes, locals: 0 };
        let ghost before = self.funs@;
        proof {
            lemma_push(self.funs@, |f: FunFrame| allocs_view(f.scopes@), name, frame);
            lemma_push(self.funs@, |f: FunFrame| f.locals, name, frame);
            assert(allocs_view(frame.scopes@) =~= seq![AllocView::new()]);
        }
        self.funs.push((name, frame));
        self.base = id.to_owned();
        self.args = params;
    }

    /// Finishes the function being emitted: what follows is emitted at the
    /// top level.
    pub fn pop_fun(&mut self)
        ensures
            final(self)@ == old(self)@.pop_fun(),
    {
        self.base = "GLOBAL".to_owned();
    }
}

/// A scope level takes its names with it: once a level is closed, `get`
/// answers for every name what it answered before the level was opened,
/// whatever was declared in the level. So a name that is declared only in a
/// level that is closed by now is unknown.
pub proof fn lemma_closed_scope_forgets(ctx: AsmCtxView, id: Seq<char>, name: Seq<char>)
    requires
        ctx.has_frame(),
    ensures
        ctx.push_scope().pop_scope().levels() == ctx.levels(),
        ctx.push_scope().define(id).pop_scope().levels() == ctx.levels(),
        ctx.push_scope().define(id).pop_scope().get(name) == ctx.get(name),
{
    let opened = ctx.push_scope();
    let filled = opened.define(id);
    assert(opened.levels().drop_last() =~= ctx.levels());
    assert(filled.levels().drop_last() =~= ctx.levels());
}

/// Searching a stack of levels is searching its innermost level and, where
/// that fails, the levels below.
proof fn lemma_lookup_take(levels: Seq<AllocView>, id: Seq<char>, n: int)
    requires
        0 < n <= levels.len(),
    ensures
        lookup(levels.take(n), id) == match levels[n - 1].get(id) {
            Some(offset) => Some(offset),
            None => lookup(levels.take(n - 1), id),
        },
{
    assert(levels.take(n).drop_last() =~= levels.take(n - 1));
}

impl AsmCtx {
    /// Whether `define` can count and place another local in the innermost
    /// scope level, of which there must be one.
    pub fn can_define(&self) -> (r: bool)
        requires
            self@.has_level(),
        ensures
            r == self@.can_define(),
    {
        let i = self.current();
        let depth = self.funs[i].1.scopes.len();
        let level = self.funs[i].1.scopes.get(depth - 1);
        self.funs[i].1.locals < usize::MAX && level.top() < i64::MAX
    }

    /// Reserves a local slot for `id` in the innermost scope level, of
    /// which there must be one, and counts it among the locals of the
    /// function being emitted.
    pub fn define(&mut self, id: &str)
        requires
            old(self)@.has_level(),
            old(self)@.can_define(),
        ensures
            final(self)@ == old(self)@.define(id@),
    {
        let i = self.current();
        let ghost before = self.funs@;
        let ghost levels = |f: FunFrame| allocs_view(f.scopes@);
        let ghost count = |f: FunFrame| f.locals;
        self.funs[i].1.locals += 1;
        self.funs[i].1.scopes.top_mut().define(id);
        proof {
            let frame = self.funs@[i as int].1;
            assert(self.funs@ =~= before.update(i as int, (before[i as int].0, frame)));
            lemma_update(before, levels, i as int, frame);
            lemma_update(before, count, i as int, frame);
            let old_levels = allocs_view(before[i as int].1.scopes@);
            assert(allocs_view(frame.scopes@) =~= old_levels.drop_last().push(
                old_levels.last().define(id@),
            ));
            assert(self@.scopes =~= old(self)@.define(id@).scopes);
            assert(self@.locals =~= old(self)@.define(id@).locals);
        }
    }

    /// Whether `define_arg` can place another parameter in the innermost
    /// scope level, of which there must be one.
    pub fn can_define_arg(&self) -> (r: bool)
        requires
            self@.has_level(),
        ensures
            r == self@.can_define_arg(),
    {
        let i = self.current();
        let depth = self.funs[i].1.scopes.len();
        let level = self.funs[i].1.scopes.get(depth - 1);
        level.bot() > i64::MIN
    }

    /// Records the parameter `id` in the innermost scope level, of which
    /// there must be one.
    pub fn define_arg(&mut self, id: &str)
        requires
            old(self)@.has_level(),
            old(self)@.can_define_arg(),
        ensures
            final(self)@ == old(self)@.define_arg(id@),
    {
        let i = self.current();
        let ghost before = self.funs@;
        let ghost levels = |f: FunFrame| allocs_view(f.scopes@);
        let ghost count = |f: FunFrame| f.locals;
        self.funs[i].1.scopes.top_mut().define_arg(id);
        proof {
            let frame = self.funs@[i as int].1;
            assert(self.funs@ =~= before.update(i as int, (before[i as int].0, frame)));
            lemma_update(before, levels, i as int, frame);
            lemma_update(before, count, i as int, frame);
            let old_levels = allocs_view(before[i as int].1.scopes@);
            assert(allocs_view(frame.scopes@) =~= old_levels.drop_last().push(
                old_levels.last().define_arg(id@),
            ));
            assert(self@.scopes =~= old(self)@.define_arg(id@).scopes);
            assert(self@.locals =~= old(self)@.define_arg(id@).locals);
        }
    }

    /// The offset of `id`, searched from the innermost open scope level of
    /// the function being emitted, which must have a frame, to its
    /// outermost. Where no open level declares `id`, the error names it.
    pub fn get(&self, id: &str) -> (r: Result<i64, CompileError>)
        requires
            self@.has_frame(),
        ensures
            match self@.get(id@) {
                Some(offset) => r == Ok::<i64, CompileError>(offset),
                None => r is Err && r->Err_0@ == CompileErrorView::UnknownIdentifier(id@),
            },
    {
        let i = self.current();
        let stack = &self.funs[i].1.scopes;
        let ghost all = allocs_view(stack@);
        let mut k: usize = stack.len();
        assert(all.take(k as int) =~= all);
        while k > 0
            invariant
                k <= stack@.len(),
                all == allocs_view(stack@),
                all == self@.levels(),
                lookup(all, id@) == lookup(all.take(k as int), id@),
            decreases k,
        {
            proof {
                lemma_lookup_take(all, id@, k as int);
            }
            k -= 1;
            assert(all[k as int] == stack@[k as int]@);
            match stack.get(k).get(id) {
                Some(offset) => {
                    return Ok(offset);
                },
                None => {},
            }
        }
        Err(CompileError::UnknownIdentifier(id.to_owned()))
    }

    /// The first struct of the table that is named `id`.
    pub fn get_esta_struct(&self, id: &str) -> (r: Option<EstaStruct>)
        ensures
            match self@.get_esta_struct(id@) {
                Some(s) => r is Some && r->Some_0@ == s,
                None => r is None,
            },
    {
        let ghost all = self.md@;
        let mut k: usize = 0;
        assert(all.skip(0) =~= all);
        while k < self.md.structs.len()
            invariant
                k <= self.md.structs.len(),
                all == self.md@,
                first_named(all, id@) == first_named(all.skip(k as int), id@),
            decreases self.md.structs.len() - k,
        {
            proof {
                assert(all.skip(k as int)[0] == all[k as int]);
                assert(all.skip(k as int).drop_first() =~= all.skip(k + 1));
            }
            if same_text(self.md.structs[k].id.as_str(), id) {
                return Some(self.md.structs[k].clone());
            }
            k += 1;
        }
        None
    }
}

/// Two sequences taken in turns, starting with the first, up to the point
/// where the sequence whose turn it is has run out.
pub open spec fn interleaved(a: Seq<u64>, b: Seq<u64>) -> Seq<u64> {
    let n = if a.len() <= b.len() {
        2 * a.len()
    } else {
        2 * b.len() + 1
    };
    Seq::new(
        n as nat,
        |k: int|
            if k % 2 == 0 {
                a[k / 2]
            } else {
                b[k / 2]
            },
    )
}

/// The hashes of the names of the fields, in declared order.
pub open spec fn field_hashes(fields: Seq<(Seq<char>, usize)>) -> Seq<u64> {
    Seq::new(fields.len(), |i: int| spec_string_hash32(fields[i].0))
}

/// The offsets of the fields, in declared order.
pub open spec fn field_offsets(fields: Seq<(Seq<char>, usize)>) -> Seq<u64> {
    Seq::new(fields.len(), |i: int| fields[i].1 as u64)
}

/// The block that describes the fields of a struct: for each field, in
/// declared order, the hash of its name and then its offset.
pub open spec fn field_block(s: EstaStructView) -> Seq<u64> {
    interleaved(field_hashes(s.fields), field_offsets(s.fields))
}

/// The field blocks of the first `n` structs, one after the other.
pub open spec fn blocks_upto(structs: Seq<EstaStructView>, n: nat) -> Seq<u64>
    decreases n,
{
    if n == 0 || n > structs.len() {
        Seq::empty()
    } else {
        blocks_upto(structs, (n - 1) as nat) + field_block(structs[n - 1])
    }
}

/// The data segment of a struct table: one pointer per struct, then the
/// field blocks. The pointer of a struct is the index in the segment at
/// which its block starts.
pub open spec fn data_segment(structs: Seq<EstaStructView>) -> Seq<u64> {
    Seq::new(
        structs.len(),
        |i: int| (structs.len() + blocks_upto(structs, i as nat).len()) as u64,
    ) + blocks_upto(structs, structs.len())
}

/// Calls `interleave_shortest` of the crate `itertools` on the two vectors
/// and collects what it yields. The adaptor takes an item from the first
/// vector, then one from the second, and so on, and ends as soon as the
/// vector whose turn it is has no item left.
#[verifier::external_body]
fn interleave(a: Vec<u64>, b: Vec<u64>) -> (r: Vec<u64>)
    ensures
        r@ == interleaved(a@, b@),
{
    itertools::Itertools::interleave_shortest(a.into_iter(), b.into_iter()).collect()
}

/// Builds the field block of a struct.
fn block_of(s: &EstaStruct) -> (r: Vec<u64>)
    ensures
        r@ == field_block(s@),
{
    let mut hashes: Vec<u64> = Vec::new();
    let mut offsets: Vec<u64> = Vec::new();
    let mut i: usize = 0;
    while i < s.fields.len()
        invariant
            i <= s.fields.len(),
            hashes@ == field_hashes(s@.fields).take(i as int),
            offsets@ == field_offsets(s@.fields).take(i as int),
        decreases s.fields.len() - i,
    {
        hashes.push(string_hash32(s.fields[i].0.clone()));
        offsets.push(s.fields[i].1 as u64);
        assert(hashes@ =~= field_hashes(s@.fields).take(i + 1));
        assert(offsets@ =~= field_offsets(s@.fields).take(i + 1));
        i += 1;
    }
    assert(hashes@ =~= field_hashes(s@.fields));
    assert(offsets@ =~= field_offsets(s@.fields));
    interleave(hashes, offsets)
}

impl AsmCtx {
    /// Lays out the data segment of the struct table: a table of pointers,
    /// one per struct in the order of the tags, followed by the field block
    /// of each struct.
    pub fn assemble_data_segment(&self) -> (r: Vec<u64>)
        ensures
            r@ == data_segment(self@.md),
    {
        let ghost structs = self.md@;
        let count = self.md.structs.len();
        let mut seg: Vec<u64> = Vec::new();
        let mut i: usize = 0;
        while i < count
            invariant
                i <= count,
                seg@.len() == i,
            decreases count - i,
        {
            seg.push(0);
            i += 1;
        }
        i = 0;
        while i < count
            invariant
                i <= count,
                count == self.md.structs.len(),
                structs == self.md@,
                seg@.len() == count + blocks_upto(structs, i as nat).len(),
                seg@.skip(count as int) == blocks_upto(structs, i as nat),
                forall|j: int|
                    0 <= j < i ==> (#[trigger] seg@[j]) == (count + blocks_upto(
                        structs,
                        j as nat,
                    ).len()) as u64,
            decreases count - i,
        {
            let start = seg.len();
            let mut block = block_of(&self.md.structs[i]);
            let ghost before = seg@;
            seg[i] = start as u64;
            seg.append(&mut block);
            proof {
                assert(structs[i as int] == self.md.structs@[i as int]@);
                assert(seg@.skip(count as int) =~= before.skip(count as int) + field_block(
                    structs[i as int],
                ));
                assert forall|j: int| 0 <= j < i + 1 implies (#[trigger] seg@[j]) == (count
                    + blocks_upto(structs, j as nat).len()) as u64 by {
                    if j < i {
                        assert(seg@[j] == before[j]);
                    }
                }
            }
            i += 1;
        }
        assert(seg@ =~= data_segment(structs));
        seg
    }
}

} // verus!

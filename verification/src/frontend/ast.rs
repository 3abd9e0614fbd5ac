//! Statements, expressions and the description of a struct type.
use vstd::prelude::*;

verus! {

/// A statement.
#[derive(Debug)]
pub enum Stmt {
    /// A sequence of statements; the flag says whether it opens a scope.
    Block(Vec<Box<Stmt>>, bool),
    /// A test, the statement to run where it holds and the alternative.
    If(Box<Expr>, Box<Stmt>, Box<Stmt>),
    /// A test and the statement to repeat while it holds.
    While(Box<Expr>, Box<Stmt>),
    /// A return, with the value to hand back if there is one.
    Return(Option<Box<Expr>>),
    /// The declaration of a local variable.
    Declaration(Identifier),
    /// A function: its name, its parameters and its body.
    FunDecl(Identifier, Vec<Identifier>, Box<Stmt>),
    /// An assignment: the target and the value.
    Assignment(Box<Expr>, Box<Expr>),
    /// A struct type: its name and its fields.
    Struct(String, Vec<Identifier>),
}

/// An expression.
#[derive(Debug)]
pub enum Expr {
    /// A variable.
    Id(Identifier),
    /// A member of a value: the value's name and the field or call.
    Dot(Identifier, Box<Expr>),
    /// A literal.
    Literal(Literal),
    /// A list of items.
    List(Vec<Box<Expr>>),
    /// An operation on two operands.
    BinaryOp(Box<Expr>, Opcode, Box<Expr>),
    /// An operation on one operand.
    UnaryOp(Opcode, Box<Expr>),
    /// A call: the function's name and the arguments.
    FunCall(String, Vec<Expr>),
}

/// A name together with the name of its type.
#[derive(Debug)]
pub struct Identifier {
    pub id: String,
    pub type_of: String,
}

/// The type name of an identifier that was given none.
pub open spec fn dynamic_type() -> Seq<char> {
    "Dynamic"@
}

impl Identifier {
    /// An identifier of the dynamic type.
    pub fn new(id: String) -> (r: Self)
        ensures
            r.id@ == id@,
            r.type_of@ == dynamic_type(),
    {
        Identifier { id, type_of: "Dynamic".to_owned() }
    }

    /// An identifier of the given type.
    pub fn new_typed(id: String, type_of: String) -> (r: Self)
        ensures
            r.id@ == id@,
            r.type_of@ == type_of@,
    {
        Identifier { id, type_of }
    }
}

/// A literal value.
#[derive(Debug)]
pub enum Literal {
    Number(i64),
    Boolean(bool),
    String(String),
    Nil,
}

/// The operators of the language.
#[derive(Debug, Clone, Copy, PartialEq, Eq, Hash, Structural)]
pub enum Opcode {
    Add,
    Sub,
    Mul,
    Div,
    Mod,
    Greater,
    GreaterEqual,
    Lesser,
    LesserEqual,
    EqualEqual,
    BangEqual,
    And,
    Or,
    Not,
}

/// The layout of a struct type: its tag, the number of cells a value of it
/// takes, and the offset of each field, in the order of declaration.
#[derive(Debug)]
pub struct EstaStruct {
    pub id: String,
    pub tag: usize,
    pub size: usize,
    pub fields: Vec<(String, usize)>,
}

/// What an `EstaStruct` holds, with names as sequences of characters.
pub struct EstaStructView {
    pub id: Seq<char>,
    pub tag: usize,
    pub size: usize,
    pub fields: Seq<(Seq<char>, usize)>,
}

/// The fields of a layout with their names as sequences of characters.
pub open spec fn fields_view(fields: Seq<(String, usize)>) -> Seq<(Seq<char>, usize)> {
    Seq::new(fields.len(), |i: int| (fields[i].0@, fields[i].1))
}

impl View for EstaStruct {
    type V = EstaStructView;

    open spec fn view(&self) -> EstaStructView {
        EstaStructView {
            id: self.id@,
            tag: self.tag,
            size: self.size,
            fields: fields_view(self.fields@),
        }
    }
}

impl EstaStructView {
    /// The offset recorded for the field `name`: that of its last
    /// declaration, if it is declared at all.
    pub open spec fn offset_of(self, name: Seq<char>) -> Option<usize>
        decreases self.fields.len(),
    {
        if self.fields.len() == 0 {
            None
        } else if self.fields.last().0 == name {
            Some(self.fields.last().1)
        } else {
            EstaStructView { fields: self.fields.drop_last(), ..self }.offset_of(name)
        }
    }

    /// The layout without any field, of size 0: what stands for a statement
    /// that declares no struct.
    pub open spec fn empty() -> EstaStructView {
        EstaStructView { id: Seq::empty(), tag: 0, size: 0, fields: Seq::empty() }
    }

    /// The layout of a struct declared with the given name and fields: two
    /// cells for tag and size, then one cell per field in declared order.
    /// The tag is 0 until the struct is entered in a table.
    pub open spec fn declared(id: Seq<char>, fields: Seq<Identifier>) -> EstaStructView {
        EstaStructView {
            id,
            tag: 0,
            size: (2 + fields.len()) as usize,
            fields: Seq::new(fields.len(), |i: int| (fields[i].id@, (i + 2) as usize)),
        }
    }

    /// The layout that a statement declares.
    pub open spec fn of_stmt(s: Stmt) -> EstaStructView {
        match s {
            Stmt::Struct(id, fields) => Self::declared(id@, fields@),
            _ => Self::empty(),
        }
    }
}

impl Default for EstaStruct {
    fn default() -> (r: Self)
        ensures
            r@ == EstaStructView::empty(),
    {
        let r = EstaStruct { id: String::new(), tag: 0, size: 0, fields: Vec::new() };
        assert(r@.fields =~= Seq::empty());
        r
    }
}

impl Clone for EstaStruct {
    fn clone(&self) -> (r: Self)
        ensures
            r@ == self@,
    {
        let mut fields: Vec<(String, usize)> = Vec::new();
        let mut i: usize = 0;
        while i < self.fields.len()
            invariant
                i <= self.fields.len(),
                fields_view(fields@) == fields_view(self.fields@).take(i as int),
            decreases self.fields.len() - i,
        {
            let ghost before = fields_view(fields@);
            fields.push((self.fields[i].0.clone(), self.fields[i].1));
            assert(fields_view(fields@) =~= before.push(
                (self.fields@[i as int].0@, self.fields@[i as int].1),
            ));
            assert(fields_view(fields@) =~= fields_view(self.fields@).take(i + 1));
            i += 1;
        }
        assert(fields_view(self.fields@).take(self.fields.len() as int) =~= fields_view(self.fields@));
        EstaStruct { id: self.id.clone(), tag: self.tag, size: self.size, fields }
    }
}

impl EstaStruct {
    /// The layout that the struct declaration `s` describes; the empty
    /// layout where `s` declares no struct.
    pub fn new(s: Stmt) -> (r: EstaStruct)
        requires
            s matches Stmt::Struct(_, fields) ==> fields.len() + 2 <= usize::MAX,
        ensures
            r@ == EstaStructView::of_stmt(s),
    {
        match s {
            Stmt::Struct(id, fields_list) => {
                Self::declare(id, &fields_list)
            },
            _ => Default::default(),
        }
    }

    /// The layout of a struct with the given name and fields.
    pub fn declare(id: String, fields_list: &Vec<Identifier>) -> (r: EstaStruct)
        requires
            fields_list.len() + 2 <= usize::MAX,
        ensures
            r@ == EstaStructView::declared(id@, fields_list@),
    {
        let size = 2 + fields_list.len();
        let mut fields: Vec<(String, usize)> = Vec::new();
        let mut i: usize = 0;
        while i < fields_list.len()
            invariant
                i <= fields_list.len(),
                fields_list.len() + 2 <= usize::MAX,
                fields_view(fields@) == EstaStructView::declared(id@, fields_list@).fields.take(
                    i as int,
                ),
            decreases fields_list.len() - i,
        {
            let ghost before = fields_view(fields@);
            fields.push((fields_list[i].id.clone(), i + 2));
            assert(fields_view(fields@) =~= before.push((fields_list@[i as int].id@, (i + 2) as usize)));
            assert(fields_view(fields@) =~= EstaStructView::declared(id@, fields_list@).fields.take(
                i + 1,
            ));
            i += 1;
        }
        assert(EstaStructView::declared(id@, fields_list@).fields.take(fields_list.len() as int)
            =~= EstaStructView::declared(id@, fields_list@).fields);
        EstaStruct { id, tag: 0, size, fields }
    }
}

/// Whether two identifiers have the same name and the same type name.
pub open spec fn same_id(a: Identifier, b: Identifier) -> bool {
    a.id@ == b.id@ && a.type_of@ == b.type_of@
}

/// Whether two lists hold the same identifiers.
pub open spec fn same_ids(a: Seq<Identifier>, b: Seq<Identifier>) -> bool {
    a.len() == b.len() && forall|i: int| 0 <= i < a.len() ==> same_id(#[trigger] a[i], b[i])
}

/// Whether two literals hold the same value.
pub open spec fn same_literal(a: Literal, b: Literal) -> bool {
    match (a, b) {
        (Literal::Number(x), Literal::Number(y)) => x == y,
        (Literal::Boolean(x), Literal::Boolean(y)) => x == y,
        (Literal::String(x), Literal::String(y)) => x@ == y@,
        (Literal::Nil, Literal::Nil) => true,
        _ => false,
    }
}

/// Whether two expressions are the same tree: the same nodes with the same
/// names, values and operators.
pub open spec fn same_expr(a: Expr, b: Expr) -> bool
    decreases a,
{
    match (a, b) {
        (Expr::Id(x), Expr::Id(y)) => same_id(x, y),
        (Expr::Dot(x, m), Expr::Dot(y, n)) => same_id(x, y) && same_expr(*m, *n),
        (Expr::Literal(x), Expr::Literal(y)) => same_literal(x, y),
        (Expr::List(xs), Expr::List(ys)) => xs.len() == ys.len() && forall|i: int|
            0 <= i < xs.len() ==> same_expr(*#[trigger] xs[i], *ys[i]),
        (Expr::BinaryOp(l, o, r), Expr::BinaryOp(m, p, s)) => o == p && same_expr(*l, *m)
            && same_expr(*r, *s),
        (Expr::UnaryOp(o, r), Expr::UnaryOp(p, s)) => o == p && same_expr(*r, *s),
        (Expr::FunCall(f, xs), Expr::FunCall(g, ys)) => f@ == g@ && xs.len() == ys.len()
            && forall|i: int| 0 <= i < xs.len() ==> same_expr(#[trigger] xs[i], ys[i]),
        _ => false,
    }
}

/// Whether two statements are the same tree.
pub open spec fn same_stmt(a: Stmt, b: Stmt) -> bool
    decreases a,
{
    match (a, b) {
        (Stmt::Block(xs, p), Stmt::Block(ys, q)) => p == q && xs.len() == ys.len() && forall|
            i: int,
        | 0 <= i < xs.len() ==> same_stmt(*#[trigger] xs[i], *ys[i]),
        (Stmt::If(t, b, e), Stmt::If(u, c, f)) => same_expr(*t, *u) && same_stmt(*b, *c)
            && same_stmt(*e, *f),
        (Stmt::While(t, b), Stmt::While(u, c)) => same_expr(*t, *u) && same_stmt(*b, *c),
        (Stmt::Return(Some(x)), Stmt::Return(Some(y))) => same_expr(*x, *y),
        (Stmt::Return(None), Stmt::Return(None)) => true,
        (Stmt::Declaration(x), Stmt::Declaration(y)) => same_id(x, y),
        (Stmt::FunDecl(x, ps, b), Stmt::FunDecl(y, qs, c)) => same_id(x, y) && same_ids(ps@, qs@)
            && same_stmt(*b, *c),
        (Stmt::Assignment(l, r), Stmt::Assignment(m, s)) => same_expr(*l, *m) && same_expr(
            *r,
            *s,
        ),
        (Stmt::Struct(n, fs), Stmt::Struct(m, gs)) => n@ == m@ && same_ids(fs@, gs@),
        _ => false,
    }
}

impl Clone for Identifier {
    fn clone(&self) -> (r: Self)
        ensures
            same_id(*self, r),
    {
        Identifier { id: self.id.clone(), type_of: self.type_of.clone() }
    }
}

impl Clone for Literal {
    fn clone(&self) -> (r: Self)
        ensures
            same_literal(*self, r),
    {
        match self {
            Literal::Number(n) => Literal::Number(*n),
            Literal::Boolean(b) => Literal::Boolean(*b),
            Literal::String(s) => Literal::String(s.clone()),
            Literal::Nil => Literal::Nil,
        }
    }
}

/// Copies a list of identifiers.
fn clone_ids(ids: &Vec<Identifier>) -> (r: Vec<Identifier>)
    ensures
        same_ids(ids@, r@),
{
    let mut copy: Vec<Identifier> = Vec::new();
    let mut i: usize = 0;
    while i < ids.len()
        invariant
            i <= ids.len(),
            copy@.len() == i,
            forall|j: int| 0 <= j < i ==> same_id(#[trigger] ids@[j], copy@[j]),
        decreases ids.len() - i,
    {
        copy.push(ids[i].clone());
        i += 1;
    }
    copy
}

impl Clone for Expr {
    fn clone(&self) -> (r: Self)
        ensures
            same_expr(*self, r),
        decreases self,
    {
        match self {
            Expr::Id(id) => Expr::Id(id.clone()),
            Expr::Dot(id, member) => Expr::Dot(id.clone(), Box::new((&**member).clone())),
            Expr::Literal(lit) => Expr::Literal(lit.clone()),
            Expr::List(items) => {
                let mut copy: Vec<Box<Expr>> = Vec::new();
                let mut i: usize = 0;
                while i < items.len()
                    invariant
                        i <= items.len(),
                        self is List,
                        self->List_0 == items,
                        copy@.len() == i,
                        forall|j: int| 0 <= j < i ==> same_expr(*#[trigger] items@[j], *copy@[j]),
                    decreases items.len() - i,
                {
                    copy.push(Box::new((&*items[i]).clone()));
                    i += 1;
                }
                Expr::List(copy)
            },
            Expr::BinaryOp(lhs, op, rhs) => Expr::BinaryOp(
                Box::new((&**lhs).clone()),
                *op,
                Box::new((&**rhs).clone()),
            ),
            Expr::UnaryOp(op, rhs) => Expr::UnaryOp(*op, Box::new((&**rhs).clone())),
            Expr::FunCall(name, args) => {
                let mut copy: Vec<Expr> = Vec::new();
                let mut i: usize = 0;
                while i < args.len()
                    invariant
                        i <= args.len(),
                        self is FunCall,
                        self->FunCall_1 == args,
                        copy@.len() == i,
                        forall|j: int| 0 <= j < i ==> same_expr(#[trigger] args@[j], copy@[j]),
                    decreases args.len() - i,
                {
                    copy.push((&args[i]).clone());
                    i += 1;
                }
                Expr::FunCall(name.clone(), copy)
            },
        }
    }
}

impl Clone for Stmt {
    fn clone(&self) -> (r: Self)
        ensures
            same_stmt(*self, r),
        decreases self,
    {
        match self {
            Stmt::Block(body, is_scope) => {
                let mut copy: Vec<Box<Stmt>> = Vec::new();
                let mut i: usize = 0;
                while i < body.len()
                    invariant
                        i <= body.len(),
                        self is Block,
                        self->Block_0 == body,
                        copy@.len() == i,
                        forall|j: int| 0 <= j < i ==> same_stmt(*#[trigger] body@[j], *copy@[j]),
                    decreases body.len() - i,
                {
                    copy.push(Box::new((&*body[i]).clone()));
                    i += 1;
                }
                Stmt::Block(copy, *is_scope)
            },
            Stmt::If(test, body, alter) => Stmt::If(
                Box::new((&**test).clone()),
                Box::new((&**body).clone()),
                Box::new((&**alter).clone()),
            ),
            Stmt::While(test, body) => Stmt::While(
                Box::new((&**test).clone()),
                Box::new((&**body).clone()),
            ),
            Stmt::Return(Some(value)) => Stmt::Return(Some(Box::new((&**value).clone()))),
            Stmt::Return(None) => Stmt::Return(None),
            Stmt::Declaration(id) => Stmt::Declaration(id.clone()),
            Stmt::FunDecl(id, params, body) => Stmt::FunDecl(
                id.clone(),
                clone_ids(params),
                Box::new((&**body).clone()),
            ),
            Stmt::Assignment(lhs, rhs) => Stmt::Assignment(
                Box::new((&**lhs).clone()),
                Box::new((&**rhs).clone()),
            ),
            Stmt::Struct(name, fields) => Stmt::Struct(name.clone(), clone_ids(fields)),
        }
    }
}

} // verus!

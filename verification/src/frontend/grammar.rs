//! The grammar of the source language: which syntax tree a stretch of
//! tokens reads as.
//!
//! Every relation speaks of the tokens from the place `from` up to, but
//! without, the place `to`.
use vstd::prelude::*;
use crate::frontend::ast::{dynamic_type, Expr, Identifier, Literal, Opcode, Stmt};
use crate::frontend::tokens::{
    DataTypeView, Keyword, Punctuation, TokenTypeView, TokenView,
};

verus! {

/// The number of levels of binary operators.
pub const LEVELS: u8 = 6;

/// The level at which a binary operator binds and the operator it stands
/// for: 0 for `or`, the weakest, up to 5 for the operators of products.
pub open spec fn binary_level(p: Punctuation) -> Option<(u8, Opcode)> {
    match p {
        Punctuation::Or => Some((0u8, Opcode::Or)),
        Punctuation::And => Some((1u8, Opcode::And)),
        Punctuation::EqualEqual => Some((2u8, Opcode::EqualEqual)),
        Punctuation::BangEqual => Some((2u8, Opcode::BangEqual)),
        Punctuation::Less => Some((3u8, Opcode::Lesser)),
        Punctuation::LessEqual => Some((3u8, Opcode::LesserEqual)),
        Punctuation::Greater => Some((3u8, Opcode::Greater)),
        Punctuation::GreaterEqual => Some((3u8, Opcode::GreaterEqual)),
        Punctuation::Plus => Some((4u8, Opcode::Add)),
        Punctuation::Minus => Some((4u8, Opcode::Sub)),
        Punctuation::Star => Some((5u8, Opcode::Mul)),
        Punctuation::Slash => Some((5u8, Opcode::Div)),
        Punctuation::Percent => Some((5u8, Opcode::Mod)),
        _ => None,
    }
}

/// The operator that a prefix sign stands for.
pub open spec fn prefix_opcode(p: Punctuation) -> Option<Opcode> {
    match p {
        Punctuation::Minus => Some(Opcode::Sub),
        Punctuation::Bang => Some(Opcode::Not),
        _ => None,
    }
}

/// A place between two tokens at which a construct ends and the next one
/// starts. Every place is one; the function only gives such places a name.
pub open spec fn cut(k: int) -> bool {
    true
}

/// Whether the sign `p` stands at the place `i`.
pub open spec fn sign_at(tv: Seq<TokenView>, i: int, p: Punctuation) -> bool {
    0 <= i < tv.len() && tv[i].type_of == TokenTypeView::Punctuation(p)
}

/// Whether the reserved word `k` stands at the place `i`.
pub open spec fn word_at(tv: Seq<TokenView>, i: int, k: Keyword) -> bool {
    0 <= i < tv.len() && tv[i].type_of == TokenTypeView::Keyword(k)
}

/// Whether the identifier `name` stands at the place `i`.
pub open spec fn name_at(tv: Seq<TokenView>, i: int, name: Seq<char>) -> bool {
    0 <= i < tv.len() && tv[i].type_of == TokenTypeView::Identifier && tv[i].lexeme == name
}

/// Whether the literal `lit` stands at the place `i`.
pub open spec fn literal_at(tv: Seq<TokenView>, i: int, lit: Literal) -> bool {
    0 <= i < tv.len() && tv[i].type_of == TokenTypeView::Literal(
        match lit {
            Literal::Number(n) => DataTypeView::Int(n),
            Literal::Boolean(b) => DataTypeView::Bool(b),
            Literal::String(s) => DataTypeView::String(s@),
            Literal::Nil => DataTypeView::Nil,
        },
    )
}

/// Whether a binary operator of the given level stands at the place `i`
/// and stands for `op`.
pub open spec fn operator_at(tv: Seq<TokenView>, i: int, level: nat, op: Opcode) -> bool {
    0 <= i < tv.len() && tv[i].type_of is Punctuation && binary_level(
        tv[i].type_of->Punctuation_0,
    ) == Some((level as u8, op))
}

/// Whether a prefix operator stands at the place `i` and stands for `op`.
pub open spec fn prefix_at(tv: Seq<TokenView>, i: int, op: Opcode) -> bool {
    0 <= i < tv.len() && tv[i].type_of is Punctuation && prefix_opcode(
        tv[i].type_of->Punctuation_0,
    ) == Some(op)
}

/// Whether an identifier is the untyped name `name`.
pub open spec fn untyped(id: Identifier, name: Seq<char>) -> bool {
    id.id@ == name && id.type_of@ == dynamic_type()
}

/// A name, alone or followed by a colon and the name of its type.
pub open spec fn reads_typed(id: Identifier, tv: Seq<TokenView>, from: int, to: int) -> bool {
    ||| to == from + 1 && name_at(tv, from, id.id@) && id.type_of@ == dynamic_type()
    ||| to == from + 3 && name_at(tv, from, id.id@) && sign_at(tv, from + 1, Punctuation::Colon)
        && name_at(tv, from + 2, id.type_of@)
}

/// Names separated by commas.
pub open spec fn reads_names(names: Seq<Identifier>, tv: Seq<TokenView>, from: int, to: int) -> bool
    decreases names.len(),
{
    if names.len() == 0 {
        to == from
    } else if names.len() == 1 {
        reads_typed(names[0], tv, from, to)
    } else {
        exists|k: int|
            #![trigger sign_at(tv, k, Punctuation::Comma)]
            from < k < to && sign_at(tv, k, Punctuation::Comma) && reads_names(
                names.drop_last(),
                tv,
                from,
                k,
            ) && reads_typed(names.last(), tv, k + 1, to)
    }
}

/// An expression.
pub open spec fn reads_expr(e: Expr, tv: Seq<TokenView>, from: int, to: int) -> bool {
    reads_level(e, tv, from, to, 0)
}

/// An expression whose binary operators outside parentheses bind at
/// `level` or stronger. Operators of one level group to the left.
pub open spec fn reads_level(e: Expr, tv: Seq<TokenView>, from: int, to: int, level: nat) -> bool
    decreases e, to - from, (if level >= LEVELS {
        2
    } else {
        LEVELS + 2 - level
    }),
{
    if level >= LEVELS {
        reads_unary(e, tv, from, to)
    } else {
        ||| reads_level(e, tv, from, to, level + 1)
        ||| e is BinaryOp && exists|k: int|
            #![trigger operator_at(tv, k, level, e->BinaryOp_1)]
            from < k < to && operator_at(tv, k, level, e->BinaryOp_1) && reads_level(
                *e->BinaryOp_0,
                tv,
                from,
                k,
                level,
            ) && reads_level(*e->BinaryOp_2, tv, k + 1, to, level + 1)
    }
}

/// An expression with its prefix operators.
pub open spec fn reads_unary(e: Expr, tv: Seq<TokenView>, from: int, to: int) -> bool
    decreases e, to - from, 1nat,
{
    ||| e is UnaryOp && prefix_at(tv, from, e->UnaryOp_0) && reads_unary(
        *e->UnaryOp_1,
        tv,
        from + 1,
        to,
    )
    ||| reads_primary(e, tv, from, to)
}

/// A call: the name of the function and its arguments in parentheses.
pub open spec fn reads_call(
    name: Seq<char>,
    args: Seq<Expr>,
    tv: Seq<TokenView>,
    from: int,
    to: int,
) -> bool
    decreases args, to - from, 2nat,
{
    &&& name_at(tv, from, name)
    &&& sign_at(tv, from + 1, Punctuation::LeftParen)
    &&& from + 2 <= to - 1
    &&& reads_items(args, tv, from + 2, to - 1)
    &&& sign_at(tv, to - 1, Punctuation::RightParen)
}

/// A literal, a variable, a call, a member access, a list, or an
/// expression in parentheses.
pub open spec fn reads_primary(e: Expr, tv: Seq<TokenView>, from: int, to: int) -> bool
    decreases e, to - from, 0nat,
{
    ||| sign_at(tv, from, Punctuation::LeftParen) && from + 1 < to - 1 && sign_at(
        tv,
        to - 1,
        Punctuation::RightParen,
    ) && reads_level(e, tv, from + 1, to - 1, 0)
    ||| match e {
        Expr::Literal(lit) => to == from + 1 && literal_at(tv, from, lit),
        Expr::Id(id) => to == from + 1 && name_at(tv, from, id.id@) && id.type_of@
            == dynamic_type(),
        Expr::FunCall(name, args) => reads_call(name@, args@, tv, from, to),
        Expr::Dot(id, member) => {
            &&& name_at(tv, from, id.id@)
            &&& id.type_of@ == dynamic_type()
            &&& sign_at(tv, from + 1, Punctuation::Dot)
            &&& match *member {
                Expr::Id(field) => to == from + 3 && name_at(tv, from + 2, field.id@)
                    && field.type_of@ == dynamic_type(),
                Expr::FunCall(name, args) => reads_call(name@, args@, tv, from + 2, to),
                _ => false,
            }
        },
        Expr::List(items) => {
            &&& sign_at(tv, from, Punctuation::LeftBracket)
            &&& from + 1 <= to - 1
            &&& reads_boxed(items@, tv, from + 1, to - 1)
            &&& sign_at(tv, to - 1, Punctuation::RightBracket)
        },
        _ => false,
    }
}

/// Expressions separated by commas.
pub open spec fn reads_items(items: Seq<Expr>, tv: Seq<TokenView>, from: int, to: int) -> bool
    decreases items, to - from, 1nat,
{
    if items.len() == 0 {
        to == from
    } else if items.len() == 1 {
        reads_level(items[0], tv, from, to, 0)
    } else {
        exists|k: int|
            #![trigger sign_at(tv, k, Punctuation::Comma)]
            from < k < to && sign_at(tv, k, Punctuation::Comma) && reads_items(
                items.drop_last(),
                tv,
                from,
                k,
            ) && reads_level(items.last(), tv, k + 1, to, 0)
    }
}

/// The items of a list, separated by commas.
pub open spec fn reads_boxed(items: Seq<Box<Expr>>, tv: Seq<TokenView>, from: int, to: int) -> bool
    decreases items, to - from, 1nat,
{
    if items.len() == 0 {
        to == from
    } else if items.len() == 1 {
        reads_level(*items[0], tv, from, to, 0)
    } else {
        exists|k: int|
            #![trigger sign_at(tv, k, Punctuation::Comma)]
            from < k < to && sign_at(tv, k, Punctuation::Comma) && reads_boxed(
                items.drop_last(),
                tv,
                from,
                k,
            ) && reads_level(*items.last(), tv, k + 1, to, 0)
    }
}

/// Whether a statement is a block in braces.
pub open spec fn braced(s: Stmt) -> bool {
    s is Block && s->Block_1
}

/// A statement.
///
/// A declaration with a value reads as a block, without a scope of its own,
/// of the declaration and the assignment of the value. A `for` loop reads
/// as such a block of its first statement and a `while` loop, whose body is
/// the body of the `for` followed by its last statement. A conditional
/// without an alternative has an empty block as its alternative.
pub open spec fn reads_stmt(s: Stmt, tv: Seq<TokenView>, from: int, to: int) -> bool
    decreases s, to - from, 1nat,
{
    match s {
        Stmt::Declaration(id) => {
            &&& word_at(tv, from, Keyword::Var)
            &&& reads_typed(id, tv, from + 1, to - 1)
            &&& sign_at(tv, to - 1, Punctuation::Semicolon)
        },
        Stmt::Block(body, is_scope) => if is_scope {
            &&& sign_at(tv, from, Punctuation::LeftBrace)
            &&& from + 1 <= to - 1
            &&& reads_stmts(body@, tv, from + 1, to - 1)
            &&& sign_at(tv, to - 1, Punctuation::RightBrace)
        } else {
            &&& body.len() == 2
            &&& {
                ||| word_at(tv, from, Keyword::Var) && reads_value(
                    *body[0],
                    *body[1],
                    tv,
                    from + 1,
                    to,
                )
                ||| word_at(tv, from, Keyword::For) && exists|k: int|
                    #![trigger cut(k)]
                    cut(k) && from + 1 < k < to && reads_stmt(*body[0], tv, from + 1, k)
                        && reads_loop(*body[1], tv, k, to)
            }
        },
        Stmt::If(test, body, alter) => {
            &&& word_at(tv, from, Keyword::If)
            &&& braced(*body)
            &&& braced(*alter)
            &&& exists|k: int|
                #![trigger sign_at(tv, k, Punctuation::LeftBrace)]
                from + 1 < k < to && sign_at(tv, k, Punctuation::LeftBrace) && reads_expr(
                    *test,
                    tv,
                    from + 1,
                    k,
                ) && exists|m: int|
                    #![trigger cut(m)]
                    cut(m) && k < m <= to && reads_stmt(*body, tv, k, m) && if m == to {
                        alter->Block_0.len() == 0
                    } else {
                        word_at(tv, m, Keyword::Else) && reads_stmt(*alter, tv, m + 1, to)
                    }
        },
        Stmt::While(test, body) => {
            &&& word_at(tv, from, Keyword::While)
            &&& braced(*body)
            &&& exists|k: int|
                #![trigger sign_at(tv, k, Punctuation::LeftBrace)]
                from + 1 < k < to && sign_at(tv, k, Punctuation::LeftBrace) && reads_expr(
                    *test,
                    tv,
                    from + 1,
                    k,
                ) && reads_stmt(*body, tv, k, to)
        },
        Stmt::Return(None) => {
            &&& to == from + 2
            &&& word_at(tv, from, Keyword::Return)
            &&& sign_at(tv, from + 1, Punctuation::Semicolon)
        },
        Stmt::Return(Some(value)) => {
            &&& word_at(tv, from, Keyword::Return)
            &&& reads_expr(*value, tv, from + 1, to - 1)
            &&& sign_at(tv, to - 1, Punctuation::Semicolon)
        },
        Stmt::FunDecl(id, params, body) => {
            &&& word_at(tv, from, Keyword::Fun)
            &&& name_at(tv, from + 1, id.id@)
            &&& sign_at(tv, from + 2, Punctuation::LeftParen)
            &&& braced(*body)
            &&& exists|k: int|
                #![trigger sign_at(tv, k, Punctuation::RightParen)]
                from + 3 <= k < to && reads_names(params@, tv, from + 3, k) && sign_at(
                    tv,
                    k,
                    Punctuation::RightParen,
                ) && {
                    ||| id.type_of@ == dynamic_type() && reads_stmt(*body, tv, k + 1, to)
                    ||| sign_at(tv, k + 1, Punctuation::Arrow) && name_at(
                        tv,
                        k + 2,
                        id.type_of@,
                    ) && reads_stmt(*body, tv, k + 3, to)
                }
        },
        Stmt::Struct(name, fields) => {
            &&& word_at(tv, from, Keyword::Struct)
            &&& name_at(tv, from + 1, name@)
            &&& sign_at(tv, from + 2, Punctuation::LeftBrace)
            &&& reads_names(fields@, tv, from + 3, to - 1)
            &&& sign_at(tv, to - 1, Punctuation::RightBrace)
        },
        Stmt::Assignment(lhs, rhs) => {
            exists|k: int|
                #![trigger sign_at(tv, k, Punctuation::Equal)]
                from < k < to - 1 && reads_expr(*lhs, tv, from, k) && sign_at(
                    tv,
                    k,
                    Punctuation::Equal,
                ) && reads_expr(*rhs, tv, k + 1, to - 1) && sign_at(
                    tv,
                    to - 1,
                    Punctuation::Semicolon,
                )
        },
    }
}

/// What follows `var` in a declaration with a value: the name, the sign
/// `=`, the value and a semicolon, read as the declaration `first` and the
/// assignment `second`.
pub open spec fn reads_value(
    first: Stmt,
    second: Stmt,
    tv: Seq<TokenView>,
    from: int,
    to: int,
) -> bool {
    &&& first is Declaration
    &&& second is Assignment
    &&& *second->Assignment_0 is Id
    &&& untyped((*second->Assignment_0)->Id_0, first->Declaration_0.id@)
    &&& exists|k: int|
        #![trigger sign_at(tv, k, Punctuation::Equal)]
        from < k < to - 1 && reads_typed(first->Declaration_0, tv, from, k) && sign_at(
            tv,
            k,
            Punctuation::Equal,
        ) && reads_expr(*second->Assignment_1, tv, k + 1, to - 1) && sign_at(
            tv,
            to - 1,
            Punctuation::Semicolon,
        )
}

/// What follows the first statement of a `for` loop: the test, a
/// semicolon, the last statement and the body in braces, read as a `while`
/// loop.
pub open spec fn reads_loop(s: Stmt, tv: Seq<TokenView>, from: int, to: int) -> bool
    decreases s, to - from, 1nat,
{
    &&& s is While
    &&& exists|k: int|
        #![trigger sign_at(tv, k, Punctuation::Semicolon)]
        from < k < to && reads_expr(*s->While_0, tv, from, k) && sign_at(
            tv,
            k,
            Punctuation::Semicolon,
        ) && reads_stepped(*s->While_1, tv, k + 1, to)
}

/// The last statement of a `for` loop and its body in braces, read as the
/// block of the body followed by that statement.
pub open spec fn reads_stepped(s: Stmt, tv: Seq<TokenView>, from: int, to: int) -> bool
    decreases s, to - from, 1nat,
{
    &&& s is Block
    &&& !s->Block_1
    &&& s->Block_0.len() == 2
    &&& braced(*s->Block_0[0])
    &&& exists|k: int|
        #![trigger sign_at(tv, k, Punctuation::LeftBrace)]
        from < k < to && sign_at(tv, k, Punctuation::LeftBrace) && reads_stmt(
            *s->Block_0[1],
            tv,
            from,
            k,
        ) && reads_stmt(*s->Block_0[0], tv, k, to)
}

/// Statements, one after the other.
pub open spec fn reads_stmts(body: Seq<Box<Stmt>>, tv: Seq<TokenView>, from: int, to: int) -> bool
    decreases body, to - from, 0nat,
{
    if body.len() == 0 {
        to == from
    } else {
        exists|k: int|
            #![trigger cut(k)]
            cut(k) && from <= k < to && reads_stmts(body.drop_last(), tv, from, k) && reads_stmt(
                *body.last(),
                tv,
                k,
                to,
            )
    }
}

/// A program: all the tokens, read as statements, in a block without a
/// scope of its own.
pub open spec fn reads_program(s: Stmt, tv: Seq<TokenView>) -> bool {
    &&& s is Block
    &&& !s->Block_1
    &&& reads_stmts(s->Block_0@, tv, 0, tv.len() as int)
}

/// The sign at the place `i`, if a sign stands there.
pub open spec fn sign_of(tv: Seq<TokenView>, i: int) -> Option<Punctuation> {
    if 0 <= i < tv.len() && tv[i].type_of is Punctuation {
        Some(tv[i].type_of->Punctuation_0)
    } else {
        None
    }
}

/// The reserved word at the place `i`, if one stands there.
pub open spec fn word_of(tv: Seq<TokenView>, i: int) -> Option<Keyword> {
    if 0 <= i < tv.len() && tv[i].type_of is Keyword {
        Some(tv[i].type_of->Keyword_0)
    } else {
        None
    }
}

/// Whether an identifier stands at the place `i`.
pub open spec fn names(tv: Seq<TokenView>, i: int) -> bool {
    0 <= i < tv.len() && tv[i].type_of is Identifier
}

/// The place behind the name that starts at `pos`, with its type where a
/// colon follows; `None` where no name starts there.
pub open spec fn typed_end(tv: Seq<TokenView>, pos: int) -> Option<int> {
    if !names(tv, pos) {
        None
    } else if sign_of(tv, pos + 1) == Some(Punctuation::Colon) {
        if names(tv, pos + 2) {
            Some(pos + 3)
        } else {
            None
        }
    } else {
        Some(pos + 1)
    }
}

/// The place behind the sign `close` that ends the names that start at
/// `pos`.
pub open spec fn names_end(tv: Seq<TokenView>, pos: int, close: Punctuation) -> Option<int> {
    if pos < 0 || pos > tv.len() {
        None
    } else if sign_of(tv, pos) == Some(close) {
        Some(pos + 1)
    } else {
        more_names_end(tv, pos, close)
    }
}

/// The place behind the sign `close` where at least one more name comes
/// first.
pub open spec fn more_names_end(tv: Seq<TokenView>, pos: int, close: Punctuation) -> Option<int>
    decreases tv.len() - pos,
{
    match typed_end(tv, pos) {
        None => None,
        Some(next) => if sign_of(tv, next) == Some(close) {
            Some(next + 1)
        } else if sign_of(tv, next) == Some(Punctuation::Comma) && pos < next < tv.len() {
            more_names_end(tv, next + 1, close)
        } else {
            None
        },
    }
}

/// The level of the binary operator at the place `i`.
pub open spec fn level_at(tv: Seq<TokenView>, i: int) -> Option<u8> {
    match sign_of(tv, i) {
        Some(p) => match binary_level(p) {
            Some((level, _)) => Some(level),
            None => None,
        },
        None => None,
    }
}

/// The place behind the expression that starts at `pos`; `None` where none
/// starts there.
pub open spec fn expr_end(tv: Seq<TokenView>, pos: int) -> Option<int> {
    level_end(tv, pos, 0)
}

/// The place behind the expression of the given level that starts at
/// `pos`.
pub open spec fn level_end(tv: Seq<TokenView>, pos: int, level: nat) -> Option<int>
    decreases tv.len() - pos, 10 + (if level >= LEVELS {
        0
    } else {
        LEVELS - level
    }),
{
    if level >= LEVELS {
        unary_end(tv, pos)
    } else {
        match level_end(tv, pos, level + 1) {
            None => None,
            Some(p) => if pos < p <= tv.len() {
                chain_end(tv, p, level)
            } else {
                None
            },
        }
    }
}

/// The place behind the operators of `level` and their right operands that
/// follow an operand that ends at `p`.
pub open spec fn chain_end(tv: Seq<TokenView>, p: int, level: nat) -> Option<int>
    decreases tv.len() - p, 0nat,
{
    if level < LEVELS && level_at(tv, p) == Some(level as u8) {
        match level_end(tv, p + 1, level + 1) {
            None => None,
            Some(next) => if p < next <= tv.len() {
                chain_end(tv, next, level)
            } else {
                None
            },
        }
    } else {
        Some(p)
    }
}

/// The place behind the expression with prefix operators that starts at
/// `pos`.
pub open spec fn unary_end(tv: Seq<TokenView>, pos: int) -> Option<int>
    decreases tv.len() - pos, 5nat,
{
    if sign_of(tv, pos) == Some(Punctuation::Minus) || sign_of(tv, pos) == Some(
        Punctuation::Bang,
    ) {
        unary_end(tv, pos + 1)
    } else {
        primary_end(tv, pos)
    }
}

/// The place behind the sign `close` that ends the expressions that start
/// at `pos`.
pub open spec fn items_end(tv: Seq<TokenView>, pos: int, close: Punctuation) -> Option<int>
    decreases tv.len() - pos, 31nat,
{
    if pos < 0 || pos > tv.len() {
        None
    } else if sign_of(tv, pos) == Some(close) {
        Some(pos + 1)
    } else {
        more_items_end(tv, pos, close)
    }
}

/// The place behind the sign `close` where at least one more expression
/// comes first.
pub open spec fn more_items_end(tv: Seq<TokenView>, pos: int, close: Punctuation) -> Option<int>
    decreases tv.len() - pos, 30nat,
{
    match level_end(tv, pos, 0) {
        None => None,
        Some(next) => if sign_of(tv, next) == Some(close) {
            Some(next + 1)
        } else if sign_of(tv, next) == Some(Punctuation::Comma) && pos < next < tv.len() {
            more_items_end(tv, next + 1, close)
        } else {
            None
        },
    }
}

/// The place behind the literal, variable, call, member access, list or
/// expression in parentheses that starts at `pos`.
pub open spec fn primary_end(tv: Seq<TokenView>, pos: int) -> Option<int>
    decreases tv.len() - pos, 4nat,
{
    if pos < 0 || pos >= tv.len() {
        None
    } else {
        match tv[pos].type_of {
            TokenTypeView::Literal(_) => Some(pos + 1),
            TokenTypeView::Identifier => if sign_of(tv, pos + 1) == Some(
                Punctuation::LeftParen,
            ) {
                items_end(tv, pos + 2, Punctuation::RightParen)
            } else if sign_of(tv, pos + 1) == Some(Punctuation::Dot) {
                if !names(tv, pos + 2) {
                    None
                } else if sign_of(tv, pos + 3) == Some(Punctuation::LeftParen) {
                    items_end(tv, pos + 4, Punctuation::RightParen)
                } else {
                    Some(pos + 3)
                }
            } else {
                Some(pos + 1)
            },
            TokenTypeView::Punctuation(Punctuation::LeftParen) => match level_end(
                tv,
                pos + 1,
                0,
            ) {
                None => None,
                Some(next) => if sign_of(tv, next) == Some(Punctuation::RightParen) {
                    Some(next + 1)
                } else {
                    None
                },
            },
            TokenTypeView::Punctuation(Punctuation::LeftBracket) => items_end(
                tv,
                pos + 1,
                Punctuation::RightBracket,
            ),
            _ => None,
        }
    }
}

/// The place behind the block in braces that starts at `pos`.
pub open spec fn block_end(tv: Seq<TokenView>, pos: int) -> Option<int>
    decreases tv.len() - pos, 40nat,
{
    if sign_of(tv, pos) == Some(Punctuation::LeftBrace) {
        body_end(tv, pos + 1)
    } else {
        None
    }
}

/// The place behind the closing brace that ends the statements that start
/// at `pos`.
pub open spec fn body_end(tv: Seq<TokenView>, pos: int) -> Option<int>
    decreases tv.len() - pos, 60nat,
{
    if pos < 0 || pos > tv.len() {
        None
    } else if sign_of(tv, pos) == Some(Punctuation::RightBrace) {
        Some(pos + 1)
    } else {
        match stmt_end(tv, pos) {
            None => None,
            Some(next) => if pos < next <= tv.len() {
                body_end(tv, next)
            } else {
                None
            },
        }
    }
}

/// The place behind the expression that starts at `pos` and the semicolon
/// that follows it.
pub open spec fn closed_expr_end(tv: Seq<TokenView>, pos: int) -> Option<int> {
    match expr_end(tv, pos) {
        None => None,
        Some(next) => if sign_of(tv, next) == Some(Punctuation::Semicolon) {
            Some(next + 1)
        } else {
            None
        },
    }
}

/// The place behind the block that follows the parameters of a function,
/// which end before `p`, and its result type, where an arrow names one.
pub open spec fn fun_body_end(tv: Seq<TokenView>, p: int) -> Option<int>
    decreases tv.len() - p, 41nat,
{
    if sign_of(tv, p) == Some(Punctuation::Arrow) {
        if names(tv, p + 1) {
            block_end(tv, p + 2)
        } else {
            None
        }
    } else {
        block_end(tv, p)
    }
}

/// The place behind the statement that starts at `pos`; `None` where none
/// starts there.
pub open spec fn stmt_end(tv: Seq<TokenView>, pos: int) -> Option<int>
    decreases tv.len() - pos, 50nat,
{
    match word_of(tv, pos) {
        Some(Keyword::Var) => match typed_end(tv, pos + 1) {
            None => None,
            Some(p) => if sign_of(tv, p) == Some(Punctuation::Semicolon) {
                Some(p + 1)
            } else if sign_of(tv, p) == Some(Punctuation::Equal) {
                closed_expr_end(tv, p + 1)
            } else {
                None
            },
        },
        Some(Keyword::Fun) => if names(tv, pos + 1) && sign_of(tv, pos + 2) == Some(
            Punctuation::LeftParen,
        ) {
            match names_end(tv, pos + 3, Punctuation::RightParen) {
                None => None,
                Some(p) => if pos < p <= tv.len() {
                    fun_body_end(tv, p)
                } else {
                    None
                },
            }
        } else {
            None
        },
        Some(Keyword::Struct) => if names(tv, pos + 1) && sign_of(tv, pos + 2) == Some(
            Punctuation::LeftBrace,
        ) {
            names_end(tv, pos + 3, Punctuation::RightBrace)
        } else {
            None
        },
        Some(Keyword::If) => match expr_end(tv, pos + 1) {
            None => None,
            Some(p) => if pos < p <= tv.len() {
                match block_end(tv, p) {
                    None => None,
                    Some(q) => if word_of(tv, q) == Some(Keyword::Else) && pos < q < tv.len() {
                        block_end(tv, q + 1)
                    } else {
                        Some(q)
                    },
                }
            } else {
                None
            },
        },
        Some(Keyword::While) => match expr_end(tv, pos + 1) {
            None => None,
            Some(p) => if pos < p <= tv.len() {
                block_end(tv, p)
            } else {
                None
            },
        },
        Some(Keyword::For) => match stmt_end(tv, pos + 1) {
            None => None,
            Some(p) => if pos < p <= tv.len() {
                match closed_expr_end(tv, p) {
                    None => None,
                    Some(q) => if p < q <= tv.len() {
                        match stmt_end(tv, q) {
                            None => None,
                            Some(r) => if q < r <= tv.len() {
                                block_end(tv, r)
                            } else {
                                None
                            },
                        }
                    } else {
                        None
                    },
                }
            } else {
                None
            },
        },
        Some(Keyword::Return) => if sign_of(tv, pos + 1) == Some(Punctuation::Semicolon) {
            Some(pos + 2)
        } else {
            closed_expr_end(tv, pos + 1)
        },
        Some(Keyword::Else) => None,
        None => if sign_of(tv, pos) == Some(Punctuation::LeftBrace) {
            block_end(tv, pos)
        } else {
            match expr_end(tv, pos) {
                None => None,
                Some(p) => if sign_of(tv, p) == Some(Punctuation::Equal) {
                    closed_expr_end(tv, p + 1)
                } else {
                    None
                },
            }
        },
    }
}

/// Whether the tokens from `pos` on are statements, one after the other,
/// up to the last token.
pub open spec fn statements_from(tv: Seq<TokenView>, pos: int) -> bool
    decreases tv.len() - pos,
{
    if pos < 0 || pos >= tv.len() {
        true
    } else {
        match stmt_end(tv, pos) {
            None => false,
            Some(next) => pos < next <= tv.len() && statements_from(tv, next),
        }
    }
}

/// Whether the tokens are a program.
pub open spec fn is_program(tv: Seq<TokenView>) -> bool {
    statements_from(tv, 0)
}

} // verus!

//! The parser: from tokens to a syntax tree.
//!
//! Each function reads one construct of the grammar from a place in the
//! tokens on and reports the tree together with the place behind the
//! construct. What it reports is a reading in the sense of the grammar.
use vstd::prelude::*;
use crate::frontend::ast::{dynamic_type, Expr, Identifier, Literal, Opcode, Stmt};
use crate::frontend::grammar::{
    binary_level, braced, cut, literal_at, name_at, operator_at, reads_boxed, reads_call,
    reads_expr, reads_items, reads_level, reads_loop, reads_names, reads_primary, reads_program,
    reads_stepped, reads_stmt, reads_stmts, reads_typed, reads_unary, reads_value, sign_at,
    untyped, word_at, LEVELS,
};
use crate::frontend::grammar::{
    block_end, body_end, chain_end, closed_expr_end, expr_end, fun_body_end, is_program, items_end, level_end,
    more_items_end, more_names_end, names, names_end, primary_end, sign_of, statements_from,
    stmt_end, typed_end, unary_end, word_of,
};
use crate::frontend::tokens::{tokens_view, DataType, Keyword, Punctuation, Token, TokenType};

verus! {

/// The level and the operator of a binary operator sign.
pub fn level_of(p: Punctuation) -> (r: Option<(u8, Opcode)>)
    ensures
        r == binary_level(p),
        r matches Some((level, _)) ==> level < LEVELS,
{
    match p {
        Punctuation::Or => Some((0u8, Opcode::Or)),
        Punctuation::And => Some((1u8, Opcode::And)),
        Punctuation::EqualEqual => Some((2u8, Opcode::EqualEqual)),
        Punctuation::BangEqual => Some((2u8, Opcode::BangEqual)),
        Punctuation::Less => Some((3u8, Opcode::Lesser)),
        Punctuation::LessEqual => Some((3u8, Opcode::LesserEqual)),
        Punctuation::Greater => Some((3u8, Opcode::Greater)),
        Punctuation::GreaterEqual => Some((3u8, Opcode::GreaterEqual)),
        Punctuation::Plus => Some((4u8, Opcode::Add)),
        Punctuation::Minus => Some((4u8, Opcode::Sub)),
        Punctuation::Star => Some((5u8, Opcode::Mul)),
        Punctuation::Slash => Some((5u8, Opcode::Div)),
        Punctuation::Percent => Some((5u8, Opcode::Mod)),
        _ => None,
    }
}

/// The sign at the place `p`, if a sign stands there.
fn punct_at(tokens: &Vec<Token>, p: usize) -> (r: Option<Punctuation>)
    ensures
        r == sign_of(tokens_view(tokens@), p as int),
        r is Some ==> p < tokens.len(),
        r matches Some(x) ==> sign_at(tokens_view(tokens@), p as int, x),
{
    if p < tokens.len() {
        match &tokens[p].type_of {
            TokenType::Punctuation(x) => Some(*x),
            _ => None,
        }
    } else {
        None
    }
}

/// Whether the sign `x` stands at the place `p`.
fn is_punct(tokens: &Vec<Token>, p: usize, x: Punctuation) -> (r: bool)
    ensures
        r == (sign_of(tokens_view(tokens@), p as int) == Some(x)),
        r ==> p < tokens.len(),
        r ==> sign_at(tokens_view(tokens@), p as int, x),
{
    match punct_at(tokens, p) {
        Some(y) => x == y,
        None => false,
    }
}

/// The reserved word at the place `p`, if one stands there.
fn keyword_at(tokens: &Vec<Token>, p: usize) -> (r: Option<Keyword>)
    ensures
        r == word_of(tokens_view(tokens@), p as int),
        r is Some ==> p < tokens.len(),
        r matches Some(k) ==> word_at(tokens_view(tokens@), p as int, k),
{
    if p < tokens.len() {
        match &tokens[p].type_of {
            TokenType::Keyword(k) => Some(*k),
            _ => None,
        }
    } else {
        None
    }
}

/// The name at the place `p`, if an identifier stands there.
fn identifier_at(tokens: &Vec<Token>, p: usize) -> (r: Option<String>)
    ensures
        r is Some <==> names(tokens_view(tokens@), p as int),
        r is Some ==> p < tokens.len(),
        r matches Some(name) ==> name_at(tokens_view(tokens@), p as int, name@),
{
    if p < tokens.len() {
        match &tokens[p].type_of {
            TokenType::Identifier => Some(tokens[p].lexeme.clone()),
            _ => None,
        }
    } else {
        None
    }
}

/// Reads a name and, behind a colon, the name of its type.
fn parse_typed(tokens: &Vec<Token>, pos: usize) -> (r: Option<(Identifier, usize)>)
    ensures
        match typed_end(tokens_view(tokens@), pos as int) {
            Some(end) => r is Some && r->Some_0.1 == end,
            None => r is None,
        },
        r matches Some((id, next)) ==> pos < next <= tokens.len() && reads_typed(
            id,
            tokens_view(tokens@),
            pos as int,
            next as int,
        ),
{
    let name = match identifier_at(tokens, pos) {
        None => {
            return None;
        },
        Some(name) => name,
    };
    if is_punct(tokens, pos + 1, Punctuation::Colon) {
        match identifier_at(tokens, pos + 2) {
            Some(type_of) => Some((Identifier::new_typed(name, type_of), pos + 3)),
            None => None,
        }
    } else {
        Some((Identifier::new(name), pos + 1))
    }
}

/// Reads names separated by commas up to the sign `close`, which it
/// consumes.
fn parse_names(tokens: &Vec<Token>, pos: usize, close: Punctuation) -> (r: Option<
    (Vec<Identifier>, usize),
>)
    ensures
        match names_end(tokens_view(tokens@), pos as int, close) {
            Some(end) => r is Some && r->Some_0.1 == end,
            None => r is None,
        },
        r matches Some((names, next)) ==> pos < next <= tokens.len() && reads_names(
            names@,
            tokens_view(tokens@),
            pos as int,
            next - 1,
        ) && sign_at(tokens_view(tokens@), next - 1, close),
{
    let ghost tv = tokens_view(tokens@);
    let mut names: Vec<Identifier> = Vec::new();
    if pos > tokens.len() {
        return None;
    }
    if is_punct(tokens, pos, close) {
        return Some((names, pos + 1));
    }
    let mut p = pos;
    loop
        invariant
            pos <= p <= tokens.len(),
            tv == tokens_view(tokens@),
            names@.len() == 0 ==> p == pos,
            names@.len() > 0 ==> pos < p - 1 && reads_names(names@, tv, pos as int, p - 1)
                && sign_at(tv, p - 1, Punctuation::Comma),
            names_end(tv, pos as int, close) == more_names_end(tv, p as int, close),
        decreases tokens.len() - p,
    {
        match parse_typed(tokens, p) {
            None => {
                return None;
            },
            Some((name, next)) => {
                let ghost before = names@;
                names.push(name);
                proof {
                    assert(names@.drop_last() =~= before);
                    assert(names@.last() == name);
                    if before.len() == 0 {
                        assert(reads_typed(names@[0], tv, pos as int, next as int));
                        assert(names@.len() == 1);
                        assert(reads_names(names@, tv, pos as int, next as int));
                    } else {
                        let k = p - 1;
                        assert(sign_at(tv, k, Punctuation::Comma));
                        assert(reads_names(names@.drop_last(), tv, pos as int, k));
                        assert(reads_typed(names@.last(), tv, k + 1, next as int));
                    }
                    assert(reads_names(names@, tv, pos as int, next as int));
                }
                if is_punct(tokens, next, close) {
                    return Some((names, next + 1));
                }
                if !is_punct(tokens, next, Punctuation::Comma) {
                    return None;
                }
                p = next + 1;
            },
        }
    }
}

/// Reads an expression.
pub fn parse_expr(tokens: &Vec<Token>, pos: usize) -> (r: Option<(Expr, usize)>)
    ensures
        match expr_end(tokens_view(tokens@), pos as int) {
            Some(end) => r is Some && r->Some_0.1 == end,
            None => r is None,
        },
        r matches Some((e, next)) ==> pos < next <= tokens.len() && reads_expr(
            e,
            tokens_view(tokens@),
            pos as int,
            next as int,
        ),
    decreases tokens.len() - pos, 20nat,
{
    parse_level(tokens, pos, 0)
}

/// Reads an expression whose binary operators bind at `level` or
/// stronger; operators of one level group to the left.
fn parse_level(tokens: &Vec<Token>, pos: usize, level: u8) -> (r: Option<(Expr, usize)>)
    requires
        level <= LEVELS,
    ensures
        match level_end(tokens_view(tokens@), pos as int, level as nat) {
            Some(end) => r is Some && r->Some_0.1 == end,
            None => r is None,
        },
        r matches Some((e, next)) ==> pos < next <= tokens.len() && reads_level(
            e,
            tokens_view(tokens@),
            pos as int,
            next as int,
            level as nat,
        ),
    decreases tokens.len() - pos, 10nat + LEVELS - level,
{
    let ghost tv = tokens_view(tokens@);
    if level >= LEVELS {
        return parse_unary(tokens, pos);
    }
    let (mut lhs, mut p) = match parse_level(tokens, pos, level + 1) {
        None => {
            return None;
        },
        Some(first) => first,
    };
    loop
        invariant
            pos < p <= tokens.len(),
            level < LEVELS,
            tv == tokens_view(tokens@),
            reads_level(lhs, tv, pos as int, p as int, level as nat),
            level_end(tv, pos as int, level as nat) == chain_end(tv, p as int, level as nat),
        decreases tokens.len() - p,
    {
        let op = match punct_at(tokens, p) {
            None => {
                return Some((lhs, p));
            },
            Some(x) => match level_of(x) {
                Some((l, op)) => {
                    if l != level {
                        return Some((lhs, p));
                    }
                    op
                },
                None => {
                    return Some((lhs, p));
                },
            },
        };
        match parse_level(tokens, p + 1, level + 1) {
            None => {
                return None;
            },
            Some((rhs, next)) => {
                let ghost left = lhs;
                lhs = Expr::BinaryOp(Box::new(lhs), op, Box::new(rhs));
                proof {
                    assert(operator_at(tv, p as int, level as nat, op));
                    assert(lhs is BinaryOp);
                    assert(*lhs->BinaryOp_0 == left);
                    assert(*lhs->BinaryOp_2 == rhs);
                    assert(lhs->BinaryOp_1 == op);
                    assert(reads_level(*lhs->BinaryOp_0, tv, pos as int, p as int, level as nat));
                    assert(reads_level(*lhs->BinaryOp_2, tv, p + 1, next as int, level as nat + 1));
                    assert(reads_level(lhs, tv, pos as int, next as int, level as nat));
                }
                p = next;
            },
        }
    }
}

/// Reads an expression with its prefix operators.
fn parse_unary(tokens: &Vec<Token>, pos: usize) -> (r: Option<(Expr, usize)>)
    ensures
        match unary_end(tokens_view(tokens@), pos as int) {
            Some(end) => r is Some && r->Some_0.1 == end,
            None => r is None,
        },
        r matches Some((e, next)) ==> pos < next <= tokens.len() && reads_unary(
            e,
            tokens_view(tokens@),
            pos as int,
            next as int,
        ),
    decreases tokens.len() - pos, 5nat,
{
    match punct_at(tokens, pos) {
        Some(Punctuation::Minus) => match parse_unary(tokens, pos + 1) {
            Some((rhs, next)) => Some((Expr::UnaryOp(Opcode::Sub, Box::new(rhs)), next)),
            None => None,
        },
        Some(Punctuation::Bang) => match parse_unary(tokens, pos + 1) {
            Some((rhs, next)) => Some((Expr::UnaryOp(Opcode::Not, Box::new(rhs)), next)),
            None => None,
        },
        _ => parse_primary(tokens, pos),
    }
}

/// Reads expressions separated by commas up to the sign `close`, which it
/// consumes.
fn parse_items(tokens: &Vec<Token>, pos: usize, close: Punctuation) -> (r: Option<
    (Vec<Expr>, usize),
>)
    ensures
        match items_end(tokens_view(tokens@), pos as int, close) {
            Some(end) => r is Some && r->Some_0.1 == end,
            None => r is None,
        },
        r matches Some((items, next)) ==> pos < next <= tokens.len() && reads_items(
            items@,
            tokens_view(tokens@),
            pos as int,
            next - 1,
        ) && sign_at(tokens_view(tokens@), next - 1, close),
    decreases tokens.len() - pos, 30nat,
{
    let ghost tv = tokens_view(tokens@);
    let mut items: Vec<Expr> = Vec::new();
    if pos > tokens.len() {
        return None;
    }
    if is_punct(tokens, pos, close) {
        return Some((items, pos + 1));
    }
    let mut p = pos;
    loop
        invariant
            pos <= p <= tokens.len(),
            tv == tokens_view(tokens@),
            items@.len() == 0 ==> p == pos,
            items@.len() > 0 ==> pos < p - 1 && reads_items(items@, tv, pos as int, p - 1)
                && sign_at(tv, p - 1, Punctuation::Comma),
            items_end(tv, pos as int, close) == more_items_end(tv, p as int, close),
        decreases tokens.len() - p,
    {
        match parse_expr(tokens, p) {
            None => {
                return None;
            },
            Some((item, next)) => {
                let ghost before = items@;
                items.push(item);
                proof {
                    assert(items@.drop_last() =~= before);
                    assert(items@.last() == item);
                    if before.len() == 0 {
                        assert(reads_level(items@[0], tv, pos as int, next as int, 0));
                    } else {
                        let k = p - 1;
                        assert(sign_at(tv, k, Punctuation::Comma));
                        assert(reads_items(items@.drop_last(), tv, pos as int, k));
                        assert(reads_level(items@.last(), tv, k + 1, next as int, 0));
                    }
                    assert(reads_items(items@, tv, pos as int, next as int));
                }
                if is_punct(tokens, next, close) {
                    return Some((items, next + 1));
                }
                if !is_punct(tokens, next, Punctuation::Comma) {
                    return None;
                }
                p = next + 1;
            },
        }
    }
}

/// Reads the items of a list up to the closing bracket, which it consumes.
fn parse_boxed(tokens: &Vec<Token>, pos: usize) -> (r: Option<(Vec<Box<Expr>>, usize)>)
    ensures
        match items_end(tokens_view(tokens@), pos as int, Punctuation::RightBracket) {
            Some(end) => r is Some && r->Some_0.1 == end,
            None => r is None,
        },
        r matches Some((items, next)) ==> pos < next <= tokens.len() && reads_boxed(
            items@,
            tokens_view(tokens@),
            pos as int,
            next - 1,
        ) && sign_at(tokens_view(tokens@), next - 1, Punctuation::RightBracket),
    decreases tokens.len() - pos, 30nat,
{
    let ghost tv = tokens_view(tokens@);
    let mut items: Vec<Box<Expr>> = Vec::new();
    if pos > tokens.len() {
        return None;
    }
    if is_punct(tokens, pos, Punctuation::RightBracket) {
        return Some((items, pos + 1));
    }
    let mut p = pos;
    loop
        invariant
            pos <= p <= tokens.len(),
            tv == tokens_view(tokens@),
            items@.len() == 0 ==> p == pos,
            items@.len() > 0 ==> pos < p - 1 && reads_boxed(items@, tv, pos as int, p - 1)
                && sign_at(tv, p - 1, Punctuation::Comma),
            items_end(tv, pos as int, Punctuation::RightBracket) == more_items_end(
                tv,
                p as int,
                Punctuation::RightBracket,
            ),
        decreases tokens.len() - p,
    {
        match parse_expr(tokens, p) {
            None => {
                return None;
            },
            Some((item, next)) => {
                let ghost before = items@;
                items.push(Box::new(item));
                proof {
                    assert(items@.drop_last() =~= before);
                    assert(*items@.last() == item);
                    if before.len() == 0 {
                        assert(reads_level(*items@[0], tv, pos as int, next as int, 0));
                    } else {
                        let k = p - 1;
                        assert(sign_at(tv, k, Punctuation::Comma));
                        assert(reads_boxed(items@.drop_last(), tv, pos as int, k));
                        assert(reads_level(*items@.last(), tv, k + 1, next as int, 0));
                    }
                    assert(reads_boxed(items@, tv, pos as int, next as int));
                }
                if is_punct(tokens, next, Punctuation::RightBracket) {
                    return Some((items, next + 1));
                }
                if !is_punct(tokens, next, Punctuation::Comma) {
                    return None;
                }
                p = next + 1;
            },
        }
    }
}

/// Reads a literal, a variable, a call, a member access, a list or an
/// expression in parentheses.
fn parse_primary(tokens: &Vec<Token>, pos: usize) -> (r: Option<(Expr, usize)>)
    ensures
        match primary_end(tokens_view(tokens@), pos as int) {
            Some(end) => r is Some && r->Some_0.1 == end,
            None => r is None,
        },
        r matches Some((e, next)) ==> pos < next <= tokens.len() && reads_primary(
            e,
            tokens_view(tokens@),
            pos as int,
            next as int,
        ),
    decreases tokens.len() - pos, 4nat,
{
    let ghost tv = tokens_view(tokens@);
    if pos >= tokens.len() {
        return None;
    }
    assert(tv[pos as int] == tokens@[pos as int]@);
    match &tokens[pos].type_of {
        TokenType::Literal(value) => {
            let lit = match value {
                DataType::Int(n) => Literal::Number(*n),
                DataType::Bool(b) => Literal::Boolean(*b),
                DataType::String(s) => Literal::String(s.clone()),
                DataType::Nil => Literal::Nil,
            };
            assert(literal_at(tv, pos as int, lit));
            Some((Expr::Literal(lit), pos + 1))
        },
        TokenType::Identifier => {
            let name = tokens[pos].lexeme.clone();
            assert(name_at(tv, pos as int, name@));
            if is_punct(tokens, pos + 1, Punctuation::LeftParen) {
                match parse_items(tokens, pos + 2, Punctuation::RightParen) {
                    Some((args, next)) => {
                        assert(reads_call(name@, args@, tv, pos as int, next as int));
                        Some((Expr::FunCall(name, args), next))
                    },
                    None => None,
                }
            } else if is_punct(tokens, pos + 1, Punctuation::Dot) {
                let member = match identifier_at(tokens, pos + 2) {
                    None => {
                        return None;
                    },
                    Some(member) => member,
                };
                if is_punct(tokens, pos + 3, Punctuation::LeftParen) {
                    match parse_items(tokens, pos + 4, Punctuation::RightParen) {
                        Some((args, next)) => {
                            assert(reads_call(member@, args@, tv, pos + 2, next as int));
                            Some(
                                (
                                    Expr::Dot(
                                        Identifier::new(name),
                                        Box::new(Expr::FunCall(member, args)),
                                    ),
                                    next,
                                ),
                            )
                        },
                        None => None,
                    }
                } else {
                    Some(
                        (
                            Expr::Dot(
                                Identifier::new(name),
                                Box::new(Expr::Id(Identifier::new(member))),
                            ),
                            pos + 3,
                        ),
                    )
                }
            } else {
                Some((Expr::Id(Identifier::new(name)), pos + 1))
            }
        },
        TokenType::Punctuation(Punctuation::LeftParen) => {
            assert(sign_at(tv, pos as int, Punctuation::LeftParen));
            match parse_expr(tokens, pos + 1) {
                Some((inner, next)) => {
                    if is_punct(tokens, next, Punctuation::RightParen) {
                        Some((inner, next + 1))
                    } else {
                        None
                    }
                },
                None => None,
            }
        },
        TokenType::Punctuation(Punctuation::LeftBracket) => {
            assert(sign_at(tv, pos as int, Punctuation::LeftBracket));
            match parse_boxed(tokens, pos + 1) {
                Some((items, next)) => Some((Expr::List(items), next)),
                None => None,
            }
        },
        _ => None,
    }
}

/// Reads a block: statements in braces.
fn parse_block(tokens: &Vec<Token>, pos: usize) -> (r: Option<(Stmt, usize)>)
    ensures
        match block_end(tokens_view(tokens@), pos as int) {
            Some(end) => r is Some && r->Some_0.1 == end,
            None => r is None,
        },
        r matches Some((s, next)) ==> pos < next <= tokens.len() && braced(s) && reads_stmt(
            s,
            tokens_view(tokens@),
            pos as int,
            next as int,
        ),
    decreases tokens.len() - pos, 40nat,
{
    let ghost tv = tokens_view(tokens@);
    if !is_punct(tokens, pos, Punctuation::LeftBrace) {
        return None;
    }
    let mut body: Vec<Box<Stmt>> = Vec::new();
    let mut p = pos + 1;
    loop
        invariant
            pos < p <= tokens.len(),
            tv == tokens_view(tokens@),
            sign_at(tv, pos as int, Punctuation::LeftBrace),
            reads_stmts(body@, tv, pos + 1, p as int),
            block_end(tv, pos as int) == body_end(tv, p as int),
        decreases tokens.len() - p,
    {
        if is_punct(tokens, p, Punctuation::RightBrace) {
            return Some((Stmt::Block(body, true), p + 1));
        }
        match parse_stmt(tokens, p) {
            None => {
                return None;
            },
            Some((s, next)) => {
                let ghost before = body@;
                body.push(Box::new(s));
                proof {
                    assert(body@.drop_last() =~= before);
                    assert(cut(p as int));
                    assert(reads_stmts(body@.drop_last(), tv, pos + 1, p as int));
                    assert(reads_stmt(*body@.last(), tv, p as int, next as int));
                }
                p = next;
            },
        }
    }
}

/// Reads one statement.
pub fn parse_stmt(tokens: &Vec<Token>, pos: usize) -> (r: Option<(Stmt, usize)>)
    ensures
        match stmt_end(tokens_view(tokens@), pos as int) {
            Some(end) => r is Some && r->Some_0.1 == end,
            None => r is None,
        },
        r matches Some((s, next)) ==> pos < next <= tokens.len() && reads_stmt(
            s,
            tokens_view(tokens@),
            pos as int,
            next as int,
        ),
    decreases tokens.len() - pos, 50nat,
{
    match keyword_at(tokens, pos) {
        Some(Keyword::Var) => parse_var(tokens, pos),
        Some(Keyword::Fun) => parse_fun(tokens, pos),
        Some(Keyword::Struct) => parse_struct(tokens, pos),
        Some(Keyword::If) => parse_if(tokens, pos),
        Some(Keyword::While) => parse_while(tokens, pos),
        Some(Keyword::For) => parse_for(tokens, pos),
        Some(Keyword::Return) => parse_return(tokens, pos),
        Some(Keyword::Else) => None,
        None => {
            if is_punct(tokens, pos, Punctuation::LeftBrace) {
                parse_block(tokens, pos)
            } else {
                parse_assignment(tokens, pos)
            }
        },
    }
}

/// Reads an expression and the semicolon behind it.
fn parse_closed_expr(tokens: &Vec<Token>, pos: usize) -> (r: Option<(Expr, usize)>)
    ensures
        match closed_expr_end(tokens_view(tokens@), pos as int) {
            Some(end) => r is Some && r->Some_0.1 == end,
            None => r is None,
        },
        r matches Some((e, next)) ==> pos + 1 < next <= tokens.len() && reads_expr(
            e,
            tokens_view(tokens@),
            pos as int,
            next - 1,
        ) && sign_at(tokens_view(tokens@), next - 1, Punctuation::Semicolon),
    decreases tokens.len() - pos, 21nat,
{
    match parse_expr(tokens, pos) {
        Some((value, next)) => {
            if is_punct(tokens, next, Punctuation::Semicolon) {
                Some((value, next + 1))
            } else {
                None
            }
        },
        None => None,
    }
}

/// Reads the declaration of a variable, with or without a value.
fn parse_var(tokens: &Vec<Token>, pos: usize) -> (r: Option<(Stmt, usize)>)
    requires
        pos < tokens.len(),
        word_of(tokens_view(tokens@), pos as int) == Some(Keyword::Var),
    ensures
        match stmt_end(tokens_view(tokens@), pos as int) {
            Some(end) => r is Some && r->Some_0.1 == end,
            None => r is None,
        },
        r matches Some((s, next)) ==> pos < next <= tokens.len() && reads_stmt(
            s,
            tokens_view(tokens@),
            pos as int,
            next as int,
        ),
    decreases tokens.len() - pos, 45nat,
{
    let ghost tv = tokens_view(tokens@);
    let (id, p) = match parse_typed(tokens, pos + 1) {
        None => {
            return None;
        },
        Some(named) => named,
    };
    if is_punct(tokens, p, Punctuation::Semicolon) {
        Some((Stmt::Declaration(id), p + 1))
    } else if is_punct(tokens, p, Punctuation::Equal) {
        match parse_closed_expr(tokens, p + 1) {
            Some((value, next)) => {
                let target = Identifier::new(id.id.clone());
                let first = Stmt::Declaration(id);
                let second = Stmt::Assignment(Box::new(Expr::Id(target)), Box::new(value));
                proof {
                    assert(reads_typed(first->Declaration_0, tv, pos + 1, p as int));
                    assert(untyped(target, first->Declaration_0.id@));
                    assert(reads_value(first, second, tv, pos + 1, next as int));
                }
                let mut both: Vec<Box<Stmt>> = Vec::new();
                both.push(Box::new(first));
                both.push(Box::new(second));
                assert(*both@[0] == first && *both@[1] == second);
                Some((Stmt::Block(both, false), next))
            },
            None => None,
        }
    } else {
        None
    }
}

/// Reads the result type, where an arrow names one, and the body of a
/// function; the name becomes an identifier of that type.
fn parse_fun_body(tokens: &Vec<Token>, p: usize, name: String) -> (r: Option<
    (Identifier, Stmt, usize),
>)
    ensures
        match fun_body_end(tokens_view(tokens@), p as int) {
            Some(end) => r is Some && r->Some_0.2 == end,
            None => r is None,
        },
        r matches Some((id, body, next)) ==> p < next <= tokens.len() && id.id@ == name@
            && braced(body) && {
            ||| id.type_of@ == dynamic_type() && reads_stmt(
                body,
                tokens_view(tokens@),
                p as int,
                next as int,
            )
            ||| sign_at(tokens_view(tokens@), p as int, Punctuation::Arrow) && name_at(
                tokens_view(tokens@),
                p + 1,
                id.type_of@,
            ) && reads_stmt(body, tokens_view(tokens@), p + 2, next as int)
        },
    decreases tokens.len() - p, 41nat,
{
    if is_punct(tokens, p, Punctuation::Arrow) {
        match identifier_at(tokens, p + 1) {
            Some(type_of) => match parse_block(tokens, p + 2) {
                Some((body, next)) => Some((Identifier::new_typed(name, type_of), body, next)),
                None => None,
            },
            None => None,
        }
    } else {
        match parse_block(tokens, p) {
            Some((body, next)) => Some((Identifier::new(name), body, next)),
            None => None,
        }
    }
}

/// Reads the declaration of a function.
fn parse_fun(tokens: &Vec<Token>, pos: usize) -> (r: Option<(Stmt, usize)>)
    requires
        pos < tokens.len(),
        word_of(tokens_view(tokens@), pos as int) == Some(Keyword::Fun),
    ensures
        match stmt_end(tokens_view(tokens@), pos as int) {
            Some(end) => r is Some && r->Some_0.1 == end,
            None => r is None,
        },
        r matches Some((s, next)) ==> pos < next <= tokens.len() && reads_stmt(
            s,
            tokens_view(tokens@),
            pos as int,
            next as int,
        ),
    decreases tokens.len() - pos, 45nat,
{
    let ghost tv = tokens_view(tokens@);
    let name = match identifier_at(tokens, pos + 1) {
        None => {
            return None;
        },
        Some(name) => name,
    };
    if !is_punct(tokens, pos + 2, Punctuation::LeftParen) {
        return None;
    }
    let (params, p) = match parse_names(tokens, pos + 3, Punctuation::RightParen) {
        None => {
            return None;
        },
        Some(list) => list,
    };
    match parse_fun_body(tokens, p, name) {
        Some((id, body, next)) => {
            proof {
                assert(reads_names(params@, tv, pos + 3, p - 1));
                assert(sign_at(tv, p - 1, Punctuation::RightParen));
            }
            Some((Stmt::FunDecl(id, params, Box::new(body)), next))
        },
        None => None,
    }
}

/// Reads the declaration of a struct.
fn parse_struct(tokens: &Vec<Token>, pos: usize) -> (r: Option<(Stmt, usize)>)
    requires
        pos < tokens.len(),
        word_of(tokens_view(tokens@), pos as int) == Some(Keyword::Struct),
    ensures
        match stmt_end(tokens_view(tokens@), pos as int) {
            Some(end) => r is Some && r->Some_0.1 == end,
            None => r is None,
        },
        r matches Some((s, next)) ==> pos < next <= tokens.len() && reads_stmt(
            s,
            tokens_view(tokens@),
            pos as int,
            next as int,
        ),
{
    let name = match identifier_at(tokens, pos + 1) {
        None => {
            return None;
        },
        Some(name) => name,
    };
    if !is_punct(tokens, pos + 2, Punctuation::LeftBrace) {
        return None;
    }
    match parse_names(tokens, pos + 3, Punctuation::RightBrace) {
        Some((fields, next)) => Some((Stmt::Struct(name, fields), next)),
        None => None,
    }
}

/// Reads a conditional, with or without an alternative.
fn parse_if(tokens: &Vec<Token>, pos: usize) -> (r: Option<(Stmt, usize)>)
    requires
        pos < tokens.len(),
        word_of(tokens_view(tokens@), pos as int) == Some(Keyword::If),
    ensures
        match stmt_end(tokens_view(tokens@), pos as int) {
            Some(end) => r is Some && r->Some_0.1 == end,
            None => r is None,
        },
        r matches Some((s, next)) ==> pos < next <= tokens.len() && reads_stmt(
            s,
            tokens_view(tokens@),
            pos as int,
            next as int,
        ),
    decreases tokens.len() - pos, 45nat,
{
    let ghost tv = tokens_view(tokens@);
    let (test, p) = match parse_expr(tokens, pos + 1) {
        None => {
            return None;
        },
        Some(read) => read,
    };
    let (body, q) = match parse_block(tokens, p) {
        None => {
            return None;
        },
        Some(read) => read,
    };
    match keyword_at(tokens, q) {
        Some(Keyword::Else) => match parse_block(tokens, q + 1) {
            Some((alter, next)) => {
                proof {
                    assert(reads_expr(test, tv, pos + 1, p as int));
                    assert(sign_at(tv, p as int, Punctuation::LeftBrace));
                    assert(cut(q as int));
                    assert(reads_stmt(body, tv, p as int, q as int));
                    assert(reads_stmt(alter, tv, q + 1, next as int));
                }
                Some((Stmt::If(Box::new(test), Box::new(body), Box::new(alter)), next))
            },
            None => None,
        },
        _ => {
            let alter = Stmt::Block(Vec::new(), true);
            proof {
                assert(reads_expr(test, tv, pos + 1, p as int));
                assert(sign_at(tv, p as int, Punctuation::LeftBrace));
                assert(cut(q as int));
                assert(reads_stmt(body, tv, p as int, q as int));
            }
            Some((Stmt::If(Box::new(test), Box::new(body), Box::new(alter)), q))
        },
    }
}

/// Reads a loop.
fn parse_while(tokens: &Vec<Token>, pos: usize) -> (r: Option<(Stmt, usize)>)
    requires
        pos < tokens.len(),
        word_of(tokens_view(tokens@), pos as int) == Some(Keyword::While),
    ensures
        match stmt_end(tokens_view(tokens@), pos as int) {
            Some(end) => r is Some && r->Some_0.1 == end,
            None => r is None,
        },
        r matches Some((s, next)) ==> pos < next <= tokens.len() && reads_stmt(
            s,
            tokens_view(tokens@),
            pos as int,
            next as int,
        ),
    decreases tokens.len() - pos, 45nat,
{
    let ghost tv = tokens_view(tokens@);
    let (test, p) = match parse_expr(tokens, pos + 1) {
        None => {
            return None;
        },
        Some(read) => read,
    };
    match parse_block(tokens, p) {
        Some((body, next)) => {
            proof {
                assert(reads_expr(test, tv, pos + 1, p as int));
                assert(sign_at(tv, p as int, Punctuation::LeftBrace));
                assert(reads_stmt(body, tv, p as int, next as int));
            }
            Some((Stmt::While(Box::new(test), Box::new(body)), next))
        },
        None => None,
    }
}

/// Reads a `for` loop: a first statement, a test, a last statement and a
/// body. It becomes the first statement followed by a loop whose body is
/// the body followed by the last statement.
fn parse_for(tokens: &Vec<Token>, pos: usize) -> (r: Option<(Stmt, usize)>)
    requires
        pos < tokens.len(),
        word_of(tokens_view(tokens@), pos as int) == Some(Keyword::For),
    ensures
        match stmt_end(tokens_view(tokens@), pos as int) {
            Some(end) => r is Some && r->Some_0.1 == end,
            None => r is None,
        },
        r matches Some((s, next)) ==> pos < next <= tokens.len() && reads_stmt(
            s,
            tokens_view(tokens@),
            pos as int,
            next as int,
        ),
    decreases tokens.len() - pos, 45nat,
{
    let ghost tv = tokens_view(tokens@);
    let (init, p) = match parse_stmt(tokens, pos + 1) {
        None => {
            return None;
        },
        Some(read) => read,
    };
    let (test, q) = match parse_closed_expr(tokens, p) {
        None => {
            return None;
        },
        Some(read) => read,
    };
    let (step, r) = match parse_stmt(tokens, q) {
        None => {
            return None;
        },
        Some(read) => read,
    };
    match parse_block(tokens, r) {
        Some((body, next)) => {
            let mut inner: Vec<Box<Stmt>> = Vec::new();
            inner.push(Box::new(body));
            inner.push(Box::new(step));
            let stepped = Stmt::Block(inner, false);
            proof {
                assert(*inner@[0] == body && *inner@[1] == step);
                assert(reads_stmt(step, tv, q as int, r as int));
                assert(sign_at(tv, r as int, Punctuation::LeftBrace));
                assert(reads_stmt(body, tv, r as int, next as int));
                assert(reads_stepped(stepped, tv, q as int, next as int));
            }
            let repeat = Stmt::While(Box::new(test), Box::new(stepped));
            proof {
                assert(reads_expr(test, tv, p as int, q - 1));
                assert(sign_at(tv, q - 1, Punctuation::Semicolon));
                assert(reads_loop(repeat, tv, p as int, next as int));
                assert(cut(p as int));
                assert(reads_stmt(init, tv, pos + 1, p as int));
            }
            let mut outer: Vec<Box<Stmt>> = Vec::new();
            outer.push(Box::new(init));
            outer.push(Box::new(repeat));
            assert(*outer@[0] == init && *outer@[1] == repeat);
            Some((Stmt::Block(outer, false), next))
        },
        None => None,
    }
}

/// Reads a return, with or without a value.
fn parse_return(tokens: &Vec<Token>, pos: usize) -> (r: Option<(Stmt, usize)>)
    requires
        pos < tokens.len(),
        word_of(tokens_view(tokens@), pos as int) == Some(Keyword::Return),
    ensures
        match stmt_end(tokens_view(tokens@), pos as int) {
            Some(end) => r is Some && r->Some_0.1 == end,
            None => r is None,
        },
        r matches Some((s, next)) ==> pos < next <= tokens.len() && reads_stmt(
            s,
            tokens_view(tokens@),
            pos as int,
            next as int,
        ),
    decreases tokens.len() - pos, 45nat,
{
    if is_punct(tokens, pos + 1, Punctuation::Semicolon) {
        Some((Stmt::Return(None), pos + 2))
    } else {
        match parse_closed_expr(tokens, pos + 1) {
            Some((value, next)) => Some((Stmt::Return(Some(Box::new(value))), next)),
            None => None,
        }
    }
}

/// Reads an assignment.
fn parse_assignment(tokens: &Vec<Token>, pos: usize) -> (r: Option<(Stmt, usize)>)
    requires
        word_of(tokens_view(tokens@), pos as int) is None,
        sign_of(tokens_view(tokens@), pos as int) != Some(Punctuation::LeftBrace),
    ensures
        match stmt_end(tokens_view(tokens@), pos as int) {
            Some(end) => r is Some && r->Some_0.1 == end,
            None => r is None,
        },
        r matches Some((s, next)) ==> pos < next <= tokens.len() && reads_stmt(
            s,
            tokens_view(tokens@),
            pos as int,
            next as int,
        ),
    decreases tokens.len() - pos, 45nat,
{
    let ghost tv = tokens_view(tokens@);
    let (target, p) = match parse_expr(tokens, pos) {
        None => {
            return None;
        },
        Some(read) => read,
    };
    if !is_punct(tokens, p, Punctuation::Equal) {
        return None;
    }
    match parse_closed_expr(tokens, p + 1) {
        Some((value, next)) => {
            proof {
                assert(reads_expr(target, tv, pos as int, p as int));
                assert(reads_expr(value, tv, p + 1, next - 1));
            }
            Some((Stmt::Assignment(Box::new(target), Box::new(value)), next))
        },
        None => None,
    }
}

/// Reads a whole program: statements up to the end of the tokens.
pub fn parse_program(tokens: &Vec<Token>) -> (r: Option<Stmt>)
    ensures
        r is Some <==> is_program(tokens_view(tokens@)),
        r matches Some(s) ==> reads_program(s, tokens_view(tokens@)),
{
    let ghost tv = tokens_view(tokens@);
    let mut body: Vec<Box<Stmt>> = Vec::new();
    let mut p: usize = 0;
    while p < tokens.len()
        invariant
            p <= tokens.len(),
            tv == tokens_view(tokens@),
            reads_stmts(body@, tv, 0, p as int),
            is_program(tv) == statements_from(tv, p as int),
        decreases tokens.len() - p,
    {
        match parse_stmt(tokens, p) {
            None => {
                return None;
            },
            Some((s, next)) => {
                let ghost before = body@;
                body.push(Box::new(s));
                proof {
                    assert(body@.drop_last() =~= before);
                    assert(cut(p as int));
                    assert(reads_stmts(body@.drop_last(), tv, 0, p as int));
                    assert(reads_stmt(*body@.last(), tv, p as int, next as int));
                }
                p = next;
            },
        }
    }
    Some(Stmt::Block(body, false))
}

} // verus!

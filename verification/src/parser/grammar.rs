//! The grammar of the language, as functions from a token list and a
//! position to the tree that stands there and the position after it.
//!
//! A token list ends with the end-of-file token, which nothing consumes, so
//! every position that a function hands on lies in the list. The functions
//! say so where they go round: a part that did not move forward ends the
//! parse with [`stuck`], which never happens on a token list that ends
//! as it must.

use vstd::prelude::*;
use crate::errors::ErrorModel;
use crate::lexer::Token;
use crate::value::ValueModel;
use super::{LEVELS, NodeModel, UNARY_LEVEL, groups_right, level_holds, terminated};

verus! {

/// A tree and the position after it, or a parse error.
pub type Parse = Result<(NodeModel, int), ErrorModel>;

/// A list of trees and the position after it, or a parse error.
pub type ParseMany = Result<(Seq<NodeModel>, int), ErrorModel>;

/// A list of names and the position after it, or a parse error.
pub type ParseNames = Result<(Seq<Seq<char>>, int), ErrorModel>;

/// The parse error with the text `message`.
pub open spec fn refuse(message: Seq<char>) -> ErrorModel {
    ErrorModel::Parse(message)
}

/// The error of a parse that did not move forward.
pub open spec fn stuck() -> ErrorModel {
    refuse("Unexpected end of input"@)
}

/// The first position from `pos` on that holds no end-of-line token.
pub open spec fn skip(tokens: Seq<Token>, pos: int) -> int
    decreases tokens.len() - pos,
{
    if pos + 1 < tokens.len() && tokens[pos as int] is Eol {
        skip(tokens, pos + 1)
    } else {
        pos
    }
}

/// Whether `token` closes a list: `]` closes the items of an array, `)` the
/// arguments of a call.
pub open spec fn closes(token: Token, square: bool) -> bool {
    if square {
        token is RSqBracket
    } else {
        token is RParen
    }
}

/// What a list lacks where neither a comma nor its closing token stands.
pub open spec fn unclosed(square: bool) -> ErrorModel {
    if square {
        refuse("Expected ',' or ']'"@)
    } else {
        refuse("Expected ',' or ')'"@)
    }
}

/// A value: a literal, a name, a parenthesised expression, a unary
/// operator with its operand, a conditional, a loop, a block, an array or a
/// function.
pub open spec fn value(tokens: Seq<Token>, pos: int) -> Parse
    decreases tokens.len() - pos, 10nat,
{
    let next = pos + 1;
    if pos + 1 >= tokens.len() {
        Err(refuse("Expected value"@))
    } else {
        match tokens[pos as int] {
            Token::Number(bits) => Ok((NodeModel::Num { value: bits }, next)),
            Token::StringLiteral(text) => Ok(
                (NodeModel::Constant { value: ValueModel::String(text@) }, next),
            ),
            Token::TypeName(name) => Ok(
                (NodeModel::Constant { value: ValueModel::TypeName(name@) }, next),
            ),
            Token::Identifier(name) => Ok((NodeModel::Var { name: name@ }, next)),
            Token::True => Ok((NodeModel::Constant { value: ValueModel::Bool(true) }, next)),
            Token::False => Ok((NodeModel::Constant { value: ValueModel::Bool(false) }, next)),
            Token::Null => Ok((NodeModel::Constant { value: ValueModel::Null }, next)),
            Token::Plus | Token::Minus | Token::Not => match op(tokens, next, UNARY_LEVEL as int) {
                Ok((operand, after)) => Ok(
                    (NodeModel::Unary { op: tokens[pos as int], value: Box::new(operand) }, after),
                ),
                Err(error) => Err(error),
            },
            Token::Range => match term(tokens, next) {
                Ok((operand, after)) => Ok(
                    (NodeModel::Unary { op: Token::Range, value: Box::new(operand) }, after),
                ),
                Err(error) => Err(error),
            },
            Token::LParen => match expr(tokens, next) {
                Ok((inner, after)) => if after + 1 < tokens.len() && tokens[after as int]
                    is RParen {
                    Ok((inner, after + 1))
                } else {
                    Err(refuse("Expected ')'"@))
                },
                Err(error) => Err(error),
            },
            Token::If => branches(tokens, pos, Seq::empty()),
            Token::While => match expr(tokens, next) {
                Ok((cond, middle)) => if !(pos < middle < tokens.len()) {
                    Err(stuck())
                } else {
                    match expr(tokens, middle) {
                        Ok((code, after)) => Ok(
                            (
                                NodeModel::While { cond: Box::new(cond), code: Box::new(code) },
                                after,
                            ),
                        ),
                        Err(error) => Err(error),
                    }
                },
                Err(error) => Err(error),
            },
            Token::LBracket => block(tokens, pos),
            Token::LSqBracket => match list(tokens, next, true) {
                Ok((values, after)) => Ok((NodeModel::Array { values }, after)),
                Err(error) => Err(error),
            },
            Token::Or => match body(tokens, next) {
                Ok((code, after)) => Ok(
                    (NodeModel::Func { code: Box::new(code), arg_names: Seq::empty() }, after),
                ),
                Err(error) => Err(error),
            },
            Token::Pipe => match params(tokens, next) {
                Ok((arg_names, closing)) => if !(pos < closing && closing + 1 < tokens.len()) {
                    Err(stuck())
                } else {
                    match body(tokens, closing + 1) {
                        Ok((code, after)) => Ok(
                            (NodeModel::Func { code: Box::new(code), arg_names }, after),
                        ),
                        Err(error) => Err(error),
                    }
                },
                Err(error) => Err(error),
            },
            _ => Err(refuse("Expected value"@)),
        }
    }
}

/// The branches of a conditional from the `if` or `elif` at `at` on, after
/// the branches in `conds`: a condition and its branch, then more of the
/// same after `elif`, then at most one branch after `else`.
pub open spec fn branches(
    tokens: Seq<Token>,
    at: int,
    conds: Seq<(NodeModel, NodeModel)>,
) -> Parse
    decreases tokens.len() - at, 9nat,
{
    if at + 1 >= tokens.len() {
        Err(stuck())
    } else {
        match expr(tokens, at + 1) {
            Err(error) => Err(error),
            Ok((cond, middle)) => if !(at < middle < tokens.len()) {
                Err(stuck())
            } else {
                match expr(tokens, middle) {
                    Err(error) => Err(error),
                    Ok((branch, after)) => if !(middle < after < tokens.len()) {
                        Err(stuck())
                    } else if tokens[after as int] is Elif {
                        branches(tokens, after, conds.push((cond, branch)))
                    } else if tokens[after as int] is Else {
                        match expr(tokens, after + 1) {
                            Ok((node, end)) => Ok(
                                (
                                    NodeModel::If {
                                        conds: conds.push((cond, branch)),
                                        if_none: Some(Box::new(node)),
                                    },
                                    end,
                                ),
                            ),
                            Err(error) => Err(error),
                        }
                    } else {
                        Ok(
                            (
                                NodeModel::If { conds: conds.push((cond, branch)), if_none: None },
                                after,
                            ),
                        )
                    },
                }
            },
        }
    }
}

/// The parameters of a function from `at` on, after those in `names`, up
/// to the closing `|`, whose position is returned.
pub open spec fn params_from(tokens: Seq<Token>, at: int, names: Seq<Seq<char>>) -> ParseNames
    decreases tokens.len() - at,
{
    if at >= tokens.len() {
        Err(stuck())
    } else {
        match tokens[at as int] {
            Token::Pipe => Ok((names, at)),
            Token::Identifier(name) => {
                let then = skip(tokens, at + 1);
                if !(at < then < tokens.len()) {
                    Err(stuck())
                } else if tokens[then as int] is Comma {
                    let after = skip(tokens, then + 1);
                    if !(then < after < tokens.len()) {
                        Err(stuck())
                    } else {
                        params_from(tokens, after, names.push(name@))
                    }
                } else if tokens[then as int] is Pipe {
                    params_from(tokens, then, names.push(name@))
                } else {
                    Err(refuse("Expected ',' or '|'"@))
                }
            },
            _ => Err(refuse("Expected argument name"@)),
        }
    }
}

/// The parameters of a function between two `|`; `pos` is the position
/// after the opening one.
pub open spec fn params(tokens: Seq<Token>, pos: int) -> ParseNames {
    params_from(tokens, skip(tokens, pos), Seq::empty())
}

/// The body of a function: a block, or any expression.
pub open spec fn body(tokens: Seq<Token>, pos: int) -> Parse
    decreases tokens.len() - pos, 56nat,
{
    if pos < tokens.len() && tokens[pos as int] is LBracket {
        block(tokens, pos)
    } else {
        expr(tokens, pos)
    }
}

/// The items of a list from `at` on, after those in `items`, up to the
/// closing token.
pub open spec fn list_from(
    tokens: Seq<Token>,
    at: int,
    square: bool,
    items: Seq<NodeModel>,
) -> ParseMany
    decreases tokens.len() - at, 57nat,
{
    if at + 1 >= tokens.len() {
        Err(refuse("Expected value"@))
    } else if closes(tokens[at as int], square) {
        Ok((items, at + 1))
    } else {
        match expr(tokens, at) {
            Err(error) => Err(error),
            Ok((item, after)) => {
                let then = skip(tokens, after);
                if !(at < after <= then < tokens.len()) {
                    Err(stuck())
                } else if tokens[then as int] is Comma {
                    let resumed = skip(tokens, then + 1);
                    if !(then < resumed < tokens.len()) {
                        Err(stuck())
                    } else {
                        list_from(tokens, resumed, square, items.push(item))
                    }
                } else if closes(tokens[then as int], square) {
                    list_from(tokens, then, square, items.push(item))
                } else {
                    Err(unclosed(square))
                }
            },
        }
    }
}

/// A comma-separated list of expressions up to the closing token; `pos` is
/// the position after the opening one.
pub open spec fn list(tokens: Seq<Token>, pos: int, square: bool) -> ParseMany
    decreases tokens.len() - pos, 58nat,
{
    let at = skip(tokens, pos);
    if !(pos <= at < tokens.len()) {
        Err(stuck())
    } else {
        list_from(tokens, at, square, Seq::empty())
    }
}

/// What follows a value directly, from `at` on: the arguments of a call in
/// parentheses, or a position in square brackets, any number of times.
pub open spec fn postfix(tokens: Seq<Token>, base: NodeModel, at: int) -> Parse
    decreases tokens.len() - at, 24nat,
{
    if at + 1 >= tokens.len() {
        Ok((base, at))
    } else if tokens[at as int] is LParen {
        match list(tokens, at + 1, false) {
            Err(error) => Err(error),
            Ok((args, after)) => if !(at < after < tokens.len()) {
                Err(stuck())
            } else {
                postfix(tokens, NodeModel::Call { base: Box::new(base), args }, after)
            },
        }
    } else if tokens[at as int] is LSqBracket {
        match expr(tokens, at + 1) {
            Err(error) => Err(error),
            Ok((index, closing)) => if !(at < closing && closing + 1 < tokens.len()) {
                Err(refuse("Expected ']'"@))
            } else if tokens[closing as int] is RSqBracket {
                postfix(
                    tokens,
                    NodeModel::Index { base: Box::new(base), index: Box::new(index) },
                    closing + 1,
                )
            } else {
                Err(refuse("Expected ']'"@))
            },
        }
    } else {
        Ok((base, at))
    }
}

/// A value with what follows it directly.
pub open spec fn term(tokens: Seq<Token>, pos: int) -> Parse
    decreases tokens.len() - pos, 25nat,
{
    match value(tokens, pos) {
        Err(error) => Err(error),
        Ok((base, at)) => if !(pos < at < tokens.len()) {
            Err(stuck())
        } else {
            postfix(tokens, base, at)
        },
    }
}

/// A block: statements between braces.
pub open spec fn block(tokens: Seq<Token>, pos: int) -> Parse
    decreases tokens.len() - pos, 5nat,
{
    let open = skip(tokens, pos);
    if !(pos <= open && open + 1 < tokens.len()) {
        Err(refuse("Expected '{'"@))
    } else if !(tokens[open as int] is LBracket) {
        Err(refuse("Expected '{'"@))
    } else {
        match statements(tokens, open + 1) {
            Err(error) => Err(error),
            Ok((code, closing)) => if closing + 1 < tokens.len() && tokens[closing as int]
                is RBracket {
                Ok((NodeModel::Block { code: Box::new(code) }, closing + 1))
            } else {
                Err(refuse("Expected '}'"@))
            },
        }
    }
}

/// The level at which the right operand of an operator of the level
/// `level` is parsed: the same level where the operators group to the
/// right, the next where they group to the left.
pub open spec fn right_level(level: int) -> int {
    if groups_right(level) {
        level
    } else {
        level + 1
    }
}

/// The operators of the level `level` that follow the operand `left`, from
/// `at` on, with their right operands.
pub open spec fn op_tail(tokens: Seq<Token>, left: NodeModel, at: int, level: int) -> Parse
    decreases tokens.len() - at, 41nat,
{
    if 0 <= level < LEVELS && at + 1 < tokens.len() && level_holds(level, tokens[at as int]) {
        match op(tokens, at + 1, right_level(level)) {
            Err(error) => Err(error),
            Ok((right, after)) => if !(at < after < tokens.len()) {
                Err(stuck())
            } else {
                op_tail(
                    tokens,
                    NodeModel::Op {
                        left: Box::new(left),
                        op: tokens[at as int],
                        right: Box::new(right),
                    },
                    after,
                    level,
                )
            },
        }
    } else {
        Ok((left, at))
    }
}

/// An expression of binary operators of the precedence level `level` and
/// of all tighter levels.
pub open spec fn op(tokens: Seq<Token>, pos: int, level: int) -> Parse
    decreases tokens.len() - pos, if level < 0 || level >= LEVELS {
        30
    } else {
        40 - level
    },
{
    if level < 0 || level >= LEVELS {
        term(tokens, pos)
    } else {
        match op(tokens, pos, level + 1) {
            Err(error) => Err(error),
            Ok((left, at)) => if !(pos < at < tokens.len()) {
                Err(stuck())
            } else {
                op_tail(tokens, left, at, level)
            },
        }
    }
}

/// An expression.
pub open spec fn expr(tokens: Seq<Token>, pos: int) -> Parse
    decreases tokens.len() - pos, 50nat,
{
    op(tokens, pos, 0)
}

/// A statement: an expression up to the end of its line, or up to the end
/// of the block or of the program.
pub open spec fn statement(tokens: Seq<Token>, pos: int) -> Parse
    decreases tokens.len() - pos, 59nat,
{
    match expr(tokens, pos) {
        Err(error) => Err(error),
        Ok((node, after)) => if after >= tokens.len() {
            Err(stuck())
        } else if tokens[after as int] is Eol && after + 1 < tokens.len() {
            Ok((node, after + 1))
        } else if tokens[after as int] is Eof || tokens[after as int] is RBracket {
            Ok((node, after))
        } else {
            Err(refuse("Expected end of line (';' or newline)"@))
        },
    }
}

/// The statements from `at` on, after those in `done`, up to the end of
/// the block or of the program.
pub open spec fn statements_from(tokens: Seq<Token>, at: int, done: Seq<NodeModel>) -> Parse
    decreases tokens.len() - at, 60nat,
{
    if at >= tokens.len() {
        Err(stuck())
    } else if tokens[at as int] is Eof || tokens[at as int] is RBracket {
        Ok((NodeModel::StatementList { statements: done }, at))
    } else {
        match statement(tokens, at) {
            Err(error) => Err(error),
            Ok((node, after)) => {
                let then = skip(tokens, after);
                if !(at < after <= then < tokens.len()) {
                    Err(stuck())
                } else {
                    statements_from(tokens, then, done.push(node))
                }
            },
        }
    }
}

/// Statements up to the end of the block or of the program.
pub open spec fn statements(tokens: Seq<Token>, pos: int) -> Parse
    decreases tokens.len() - pos, 61nat,
{
    let at = skip(tokens, pos);
    if !(pos <= at < tokens.len()) {
        Err(stuck())
    } else {
        statements_from(tokens, at, Seq::empty())
    }
}

/// A program: statements up to the end-of-file token, wrapped.
pub open spec fn program(tokens: Seq<Token>) -> Parse {
    if !terminated(tokens) {
        Err(refuse("Expected end of file"@))
    } else {
        match statements(tokens, 0) {
            Err(error) => Err(error),
            Ok((result, pos)) => if pos < tokens.len() && tokens[pos as int] is Eof {
                Ok((NodeModel::Value { value: Box::new(result) }, pos))
            } else {
                Err(refuse("Expected end of file"@))
            },
        }
    }
}

} // verus!

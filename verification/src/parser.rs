//! The syntax tree that the evaluator consumes.

use vstd::prelude::*;
use crate::errors::{BaseError, parse_error};
use crate::lexer::Token;
use crate::value::{Value, ValueModel, clone_names, names_model, value_model};

pub mod grammar;

verus! {

/// A node of the syntax tree.
#[allow(inconsistent_fields)]
#[derive(Debug)]
pub enum ASTNode {
    /// A wrapped sub-expression; evaluates to what it wraps.
    Value { value: Box<ASTNode> },
    StatementList { statements: Vec<ASTNode> },
    /// A binary operator, an assignment form, a logical connective or a cast.
    Op { left: Box<ASTNode>, op: Token, right: Box<ASTNode> },
    Block { code: Box<ASTNode> },
    Call { base: Box<ASTNode>, args: Vec<ASTNode> },
    /// A number literal, as the bits of its binary64 value.
    Num { value: u64 },
    Unary { op: Token, value: Box<ASTNode> },
    Var { name: String },
    /// A literal value embedded in the tree.
    Constant { value: Value },
    If { conds: Vec<(ASTNode, ASTNode)>, if_none: Box<Option<ASTNode>> },
    While { cond: Box<ASTNode>, code: Box<ASTNode> },
    Func { code: Box<ASTNode>, arg_names: Vec<String> },
    Array { values: Vec<ASTNode> },
    Index { base: Box<ASTNode>, index: Box<ASTNode> },
}

/// Mathematical model of an [`ASTNode`]: the same tree over sequences.
#[allow(inconsistent_fields)]
pub enum NodeModel {
    Value { value: Box<NodeModel> },
    StatementList { statements: Seq<NodeModel> },
    Op { left: Box<NodeModel>, op: Token, right: Box<NodeModel> },
    Block { code: Box<NodeModel> },
    Call { base: Box<NodeModel>, args: Seq<NodeModel> },
    Num { value: u64 },
    Unary { op: Token, value: Box<NodeModel> },
    Var { name: Seq<char> },
    Constant { value: ValueModel },
    If { conds: Seq<(NodeModel, NodeModel)>, if_none: Option<Box<NodeModel>> },
    While { cond: Box<NodeModel>, code: Box<NodeModel> },
    Func { code: Box<NodeModel>, arg_names: Seq<Seq<char>> },
    Array { values: Seq<NodeModel> },
    Index { base: Box<NodeModel>, index: Box<NodeModel> },
}

/// The models of a sequence of nodes.
pub open spec fn nodes_model(nodes: Seq<ASTNode>) -> Seq<NodeModel> {
    Seq::new(nodes.len(), |i: int| nodes[i]@)
}

/// The models of a sequence of condition and body pairs.
pub open spec fn pairs_model(pairs: Seq<(ASTNode, ASTNode)>) -> Seq<(NodeModel, NodeModel)> {
    Seq::new(pairs.len(), |i: int| (pairs[i].0@, pairs[i].1@))
}

/// The model of a node: the same tree, with texts and sequences in place of
/// strings and vectors.
pub open spec fn node_model(node: ASTNode) -> NodeModel
    decreases node,
{
        match node {
            ASTNode::Value { value } => NodeModel::Value { value: Box::new(node_model(*value)) },
            ASTNode::StatementList { statements } => NodeModel::StatementList {
                statements: Seq::new(
                    statements@.len(),
                    |i: int|
                        if 0 <= i < statements@.len() {
                            node_model(statements@[i])
                        } else {
                            arbitrary()
                        },
                ),
            },
            ASTNode::Op { left, op, right } => NodeModel::Op {
                left: Box::new(node_model(*left)),
                op: op,
                right: Box::new(node_model(*right)),
            },
            ASTNode::Block { code } => NodeModel::Block { code: Box::new(node_model(*code)) },
            ASTNode::Call { base, args } => NodeModel::Call {
                base: Box::new(node_model(*base)),
                args: Seq::new(
                    args@.len(),
                    |i: int|
                        if 0 <= i < args@.len() {
                            node_model(args@[i])
                        } else {
                            arbitrary()
                        },
                ),
            },
            ASTNode::Num { value } => NodeModel::Num { value: value },
            ASTNode::Unary { op, value } => NodeModel::Unary {
                op: op,
                value: Box::new(node_model(*value)),
            },
            ASTNode::Var { name } => NodeModel::Var { name: name@ },
            ASTNode::Constant { value } => NodeModel::Constant { value: value_model(value) },
            ASTNode::If { conds, if_none } => NodeModel::If {
                conds: Seq::new(
                    conds@.len(),
                    |i: int|
                        if 0 <= i < conds@.len() {
                            (node_model(conds@[i].0), node_model(conds@[i].1))
                        } else {
                            arbitrary()
                        },
                ),
                if_none: match *if_none {
                    Some(node) => Some(Box::new(node_model(node))),
                    None => None,
                },
            },
            ASTNode::While { cond, code } => NodeModel::While {
                cond: Box::new(node_model(*cond)),
                code: Box::new(node_model(*code)),
            },
            ASTNode::Func { code, arg_names } => NodeModel::Func {
                code: Box::new(node_model(*code)),
                arg_names: names_model(arg_names@),
            },
            ASTNode::Array { values } => NodeModel::Array {
                values: Seq::new(
                    values@.len(),
                    |i: int|
                        if 0 <= i < values@.len() {
                            node_model(values@[i])
                        } else {
                            arbitrary()
                        },
                ),
            },
            ASTNode::Index { base, index } => NodeModel::Index {
                base: Box::new(node_model(*base)),
                index: Box::new(node_model(*index)),
            },
        }
}

impl View for ASTNode {
    type V = NodeModel;

    open spec fn view(&self) -> NodeModel {
        node_model(*self)
    }
}

/// The view of a node lists its children through [`nodes_model`] and
/// [`pairs_model`].
pub proof fn lemma_node_view(node: ASTNode)
    ensures
        node matches ASTNode::StatementList { statements } ==> node@ == (NodeModel::StatementList {
            statements: nodes_model(statements@),
        }),
        node matches ASTNode::Call { base, args } ==> node@ == (NodeModel::Call {
            base: Box::new(base@),
            args: nodes_model(args@),
        }),
        node matches ASTNode::Array { values } ==> node@ == (NodeModel::Array {
            values: nodes_model(values@),
        }),
        node matches ASTNode::If { conds, if_none } ==> node@ == (NodeModel::If {
            conds: pairs_model(conds@),
            if_none: match *if_none {
                Some(n) => Some(Box::new(n@)),
                None => None,
            },
        }),
{
    match node {
        ASTNode::StatementList { statements } => {
            assert(node@->statements =~= nodes_model(statements@));
        },
        ASTNode::Call { base, args } => {
            assert(node@->args =~= nodes_model(args@));
        },
        ASTNode::Array { values } => {
            assert(node@->values =~= nodes_model(values@));
        },
        ASTNode::If { conds, if_none } => {
            assert(node@->conds =~= pairs_model(conds@));
        },
        _ => {},
    }
}

/// A deep copy of a sequence of nodes.
pub fn clone_nodes(nodes: &Vec<ASTNode>) -> (res: Vec<ASTNode>)
    ensures
        nodes_model(res@) == nodes_model(nodes@),
    decreases nodes,
{
    let mut out: Vec<ASTNode> = Vec::new();
    let mut i: usize = 0;
    while i < nodes.len()
        invariant
            i <= nodes.len(),
            out.len() == i,
            forall|j: int| 0 <= j < i ==> out@[j]@ == nodes@[j]@,
        decreases nodes.len() - i,
    {
        let copy = nodes[i].clone();
        out.push(copy);
        i = i + 1;
    }
    assert(nodes_model(out@) =~= nodes_model(nodes@));
    out
}

fn clone_pairs(pairs: &Vec<(ASTNode, ASTNode)>) -> (res: Vec<(ASTNode, ASTNode)>)
    ensures
        pairs_model(res@) == pairs_model(pairs@),
    decreases pairs,
{
    let mut out: Vec<(ASTNode, ASTNode)> = Vec::new();
    let mut i: usize = 0;
    while i < pairs.len()
        invariant
            i <= pairs.len(),
            out.len() == i,
            forall|j: int|
                0 <= j < i ==> out@[j].0@ == pairs@[j].0@ && out@[j].1@ == pairs@[j].1@,
        decreases pairs.len() - i,
    {
        let first = pairs[i].0.clone();
        let second = pairs[i].1.clone();
        out.push((first, second));
        i = i + 1;
    }
    assert(pairs_model(out@) =~= pairs_model(pairs@));
    out
}

impl Clone for ASTNode {
    /// A deep copy: a tree with the same model.
    fn clone(&self) -> (res: Self)
        ensures
            res@ == self@,
        decreases self,
    {
        proof {
            lemma_node_view(*self);
        }
        let res = match self {
            ASTNode::Value { value } => ASTNode::Value { value: Box::new((**value).clone()) },
            ASTNode::StatementList { statements } => ASTNode::StatementList {
                statements: clone_nodes(statements),
            },
            ASTNode::Op { left, op, right } => ASTNode::Op {
                left: Box::new((**left).clone()),
                op: op.clone(),
                right: Box::new((**right).clone()),
            },
            ASTNode::Block { code } => ASTNode::Block { code: Box::new((**code).clone()) },
            ASTNode::Call { base, args } => ASTNode::Call {
                base: Box::new((**base).clone()),
                args: clone_nodes(args),
            },
            ASTNode::Num { value } => ASTNode::Num { value: *value },
            ASTNode::Unary { op, value } => ASTNode::Unary {
                op: op.clone(),
                value: Box::new((**value).clone()),
            },
            ASTNode::Var { name } => ASTNode::Var { name: name.clone() },
            ASTNode::Constant { value } => ASTNode::Constant { value: value.clone() },
            ASTNode::If { conds, if_none } => ASTNode::If {
                conds: clone_pairs(conds),
                if_none: Box::new(
                    match &**if_none {
                        Some(node) => Some(node.clone()),
                        None => None,
                    },
                ),
            },
            ASTNode::While { cond, code } => ASTNode::While {
                cond: Box::new((**cond).clone()),
                code: Box::new((**code).clone()),
            },
            ASTNode::Func { code, arg_names } => ASTNode::Func {
                code: Box::new((**code).clone()),
                arg_names: clone_names(arg_names),
            },
            ASTNode::Array { values } => ASTNode::Array { values: clone_nodes(values) },
            ASTNode::Index { base, index } => ASTNode::Index {
                base: Box::new((**base).clone()),
                index: Box::new((**index).clone()),
            },
        };
        proof {
            lemma_node_view(res);
        }
        res
    }
}

/// A position in a token list.
pub type ParsePos = usize;

/// A parsed node and the position after it, or a parse error.
pub type ParseResult = Result<(ASTNode, ParsePos), BaseError>;

/// The tokens of a program.
pub type TokenList = Vec<Token>;

/// The number of precedence levels of binary operators, loosest first.
pub const LEVELS: usize = 8;

/// The level at which the operand of a unary operator is parsed.
pub const UNARY_LEVEL: usize = 5;

/// Whether `token` is a binary operator of the precedence level `level`.
pub open spec fn level_holds(level: int, token: Token) -> bool {
    if level == 0 {
        token is Assign || token is LocalAssign || token is PlusEq || token is MinusEq
            || token is MultEq || token is DivEq || token is ModEq || token is PowEq
    } else if level == 1 {
        token is Or
    } else if level == 2 {
        token is And
    } else if level == 3 {
        token is Greater || token is Lesser || token is GreaterEq || token is LesserEq
            || token is Eq || token is NotEq
    } else if level == 4 {
        token is Plus || token is Minus
    } else if level == 5 {
        token is Mult || token is Div || token is Mod
    } else if level == 6 {
        token is Pow
    } else {
        level == 7 && token is As
    }
}

/// Whether the operators of the precedence level `level` group to the right.
pub open spec fn groups_right(level: int) -> bool {
    level == 0 || level == 6
}

/// Whether a token list can be parsed: it ends with the end-of-file token.
pub open spec fn terminated(tokens: Seq<Token>) -> bool {
    0 < tokens.len() <= usize::MAX && tokens.last() is Eof
}

/// Whether a successful parse has moved the position forward inside the
/// list.
pub open spec fn advances(tokens: Seq<Token>, pos: ParsePos, res: ParseResult) -> bool {
    res matches Ok((_, after)) ==> pos < after < tokens.len()
}

fn in_level(level: usize, token: &Token) -> (res: bool)
    ensures
        res == level_holds(level as int, *token),
{
    if level == 0 {
        match token {
            Token::Assign | Token::LocalAssign | Token::PlusEq | Token::MinusEq | Token::MultEq
            | Token::DivEq | Token::ModEq | Token::PowEq => true,
            _ => false,
        }
    } else if level == 1 {
        match token {
            Token::Or => true,
            _ => false,
        }
    } else if level == 2 {
        match token {
            Token::And => true,
            _ => false,
        }
    } else if level == 3 {
        match token {
            Token::Greater | Token::Lesser | Token::GreaterEq | Token::LesserEq | Token::Eq
            | Token::NotEq => true,
            _ => false,
        }
    } else if level == 4 {
        match token {
            Token::Plus | Token::Minus => true,
            _ => false,
        }
    } else if level == 5 {
        match token {
            Token::Mult | Token::Div | Token::Mod => true,
            _ => false,
        }
    } else if level == 6 {
        match token {
            Token::Pow => true,
            _ => false,
        }
    } else if level == 7 {
        match token {
            Token::As => true,
            _ => false,
        }
    } else {
        false
    }
}

fn is_eof(token: &Token) -> (res: bool)
    ensures
        res == (*token is Eof),
{
    match token {
        Token::Eof => true,
        _ => false,
    }
}

fn is_eol(token: &Token) -> (res: bool)
    ensures
        res == (*token is Eol),
{
    match token {
        Token::Eol => true,
        _ => false,
    }
}

fn expected(message: &str) -> (res: BaseError)
    ensures
        res@ == grammar::refuse(message@),
{
    parse_error(message)
}

/// The model of the outcome of parsing one tree.
pub open spec fn parse_model(res: ParseResult) -> grammar::Parse {
    match res {
        Ok((node, after)) => Ok((node@, after as int)),
        Err(error) => Err(error@),
    }
}

/// The model of the outcome of parsing a list of trees.
pub open spec fn many_model(res: Result<(Vec<ASTNode>, ParsePos), BaseError>) -> grammar::ParseMany {
    match res {
        Ok((nodes, after)) => Ok((nodes_model(nodes@), after as int)),
        Err(error) => Err(error@),
    }
}

/// The model of the outcome of parsing a list of names.
pub open spec fn names_result_model(res: Result<(Vec<String>, ParsePos), BaseError>) -> grammar::ParseNames {
    match res {
        Ok((names, after)) => Ok((names_model(names@), after as int)),
        Err(error) => Err(error@),
    }
}

/// The first position from `pos` on that holds no end-of-line token.
fn skip_eol(tokens: &TokenList, pos: ParsePos) -> (after: ParsePos)
    requires
        terminated(tokens@),
        pos < tokens@.len(),
    ensures
        pos <= after < tokens@.len(),
        after == grammar::skip(tokens@, pos as int),
{
    let mut at = pos;
    while is_eol(&tokens[at])
        invariant
            terminated(tokens@),
            pos <= at < tokens@.len(),
            grammar::skip(tokens@, at as int) == grammar::skip(tokens@, pos as int),
        decreases tokens@.len() - at,
    {
        at = at + 1;
    }
    at
}

fn closes(token: &Token, square: bool) -> (res: bool)
    ensures
        res == grammar::closes(*token, square),
{
    match token {
        Token::RParen => !square,
        Token::RSqBracket => square,
        _ => false,
    }
}

fn unclosed(square: bool) -> (res: BaseError)
    ensures
        res@ == grammar::unclosed(square),
{
    if square {
        expected("Expected ',' or ']'")
    } else {
        expected("Expected ',' or ')'")
    }
}

fn is_comma(token: &Token) -> (res: bool)
    ensures
        res == (*token is Comma),
{
    match token {
        Token::Comma => true,
        _ => false,
    }
}

/// A comma-separated list of expressions up to the closing token, which is
/// `]` for the items of an array if `square` is set and `)` for the
/// arguments of a call otherwise. `pos` is the position after the opening
/// token.
fn parse_list(tokens: &TokenList, pos: ParsePos, square: bool) -> (res: Result<
    (Vec<ASTNode>, ParsePos),
    BaseError,
>)
    requires
        terminated(tokens@),
        pos < tokens@.len(),
    ensures
        many_model(res) == grammar::list(tokens@, pos as int, square),
        res matches Ok((_, after)) ==> pos < after < tokens@.len(),
    decreases tokens@.len() - pos, 58nat,
{
    let ghost goal = grammar::list(tokens@, pos as int, square);
    let mut at = skip_eol(tokens, pos);
    let mut items: Vec<ASTNode> = Vec::new();
    assert(nodes_model(items@) =~= Seq::empty());
    loop
        invariant
            terminated(tokens@),
            pos <= at < tokens@.len(),
            goal == grammar::list(tokens@, pos as int, square),
            grammar::list_from(tokens@, at as int, square, nodes_model(items@)) == goal,
        decreases tokens@.len() - at,
    {
        if at + 1 >= tokens.len() {
            return Err(expected("Expected value"));
        }
        if closes(&tokens[at], square) {
            return Ok((items, at + 1));
        }
        let (item, after) = match parse_expr(tokens, at) {
            Ok(parsed) => parsed,
            Err(error) => {
                return Err(error);
            },
        };
        let ghost before = nodes_model(items@);
        items.push(item);
        assert(nodes_model(items@) =~= before.push(item@));
        let then = skip_eol(tokens, after);
        if is_comma(&tokens[then]) {
            at = skip_eol(tokens, then + 1);
        } else if closes(&tokens[then], square) {
            at = then;
        } else {
            return Err(unclosed(square));
        }
    }
}

/// The parameters of a function literal between two `|`. `pos` is the
/// position after the opening `|`; the position returned is that of the
/// closing one.
fn parse_params(tokens: &TokenList, pos: ParsePos) -> (res: Result<(Vec<String>, ParsePos), BaseError>)
    requires
        terminated(tokens@),
        pos < tokens@.len(),
    ensures
        names_result_model(res) == grammar::params(tokens@, pos as int),
        res matches Ok((_, after)) ==> pos <= after && after + 1 < tokens@.len(),
{
    let ghost goal = grammar::params(tokens@, pos as int);
    let mut at = skip_eol(tokens, pos);
    let mut names: Vec<String> = Vec::new();
    assert(names_model(names@) =~= Seq::empty());
    loop
        invariant
            terminated(tokens@),
            pos <= at < tokens@.len(),
            goal == grammar::params(tokens@, pos as int),
            grammar::params_from(tokens@, at as int, names_model(names@)) == goal,
        decreases tokens@.len() - at,
    {
        match &tokens[at] {
            Token::Pipe => {
                return Ok((names, at));
            },
            Token::Identifier(name) => {
                let ghost before = names_model(names@);
                names.push(name.clone());
                assert(names_model(names@) =~= before.push(name@));
                let then = skip_eol(tokens, at + 1);
                let closing = match &tokens[then] {
                    Token::Pipe => true,
                    _ => false,
                };
                if is_comma(&tokens[then]) {
                    at = skip_eol(tokens, then + 1);
                } else if closing {
                    at = then;
                } else {
                    return Err(expected("Expected ',' or '|'"));
                }
            },
            _ => {
                return Err(expected("Expected argument name"));
            },
        }
    }
}

fn constant(value: Value) -> (node: ASTNode)
    ensures
        node@ == (NodeModel::Constant { value: value@ }),
{
    ASTNode::Constant { value }
}

fn string_value(text: &String) -> (value: Value)
    ensures
        value@ == ValueModel::String(text@),
{
    Value::String(text.clone())
}

fn type_value(name: &String) -> (value: Value)
    ensures
        value@ == ValueModel::TypeName(name@),
{
    Value::TypeName(name.clone())
}

/// The body of a function literal: a block, or any expression.
fn parse_body(tokens: &TokenList, pos: ParsePos) -> (res: ParseResult)
    requires
        terminated(tokens@),
        pos < tokens@.len(),
    ensures
        parse_model(res) == grammar::body(tokens@, pos as int),
        advances(tokens@, pos, res),
    decreases tokens@.len() - pos, 56nat,
{
    let block = match &tokens[pos] {
        Token::LBracket => true,
        _ => false,
    };
    if block {
        parse_block(tokens, pos)
    } else {
        parse_expr(tokens, pos)
    }
}

/// A value: a literal, a name, a parenthesised expression, a unary
/// operator with its operand, a conditional, a loop, a block, an array or a
/// function.
fn parse_value(tokens: &TokenList, pos: ParsePos) -> (res: ParseResult)
    requires
        terminated(tokens@),
        pos < tokens@.len(),
    ensures
        parse_model(res) == grammar::value(tokens@, pos as int),
        advances(tokens@, pos, res),
    decreases tokens@.len() - pos, 10nat,
{
    if pos + 1 >= tokens.len() {
        return Err(expected("Expected value"));
    }
    match &tokens[pos] {
        Token::Number(value) => Ok((ASTNode::Num { value: *value }, pos + 1)),
        Token::StringLiteral(text) => Ok((constant(string_value(text)), pos + 1)),
        Token::TypeName(name) => Ok((constant(type_value(name)), pos + 1)),
        Token::Identifier(name) => Ok((ASTNode::Var { name: name.clone() }, pos + 1)),
        Token::True => Ok((constant(Value::Bool(true)), pos + 1)),
        Token::False => Ok((constant(Value::Bool(false)), pos + 1)),
        Token::Null => Ok((constant(Value::Null), pos + 1)),
        Token::Plus | Token::Minus | Token::Not => {
            let op = tokens[pos].clone();
            match parse_op(tokens, pos + 1, UNARY_LEVEL) {
                Ok((value, after)) => Ok((ASTNode::Unary { op, value: Box::new(value) }, after)),
                Err(error) => Err(error),
            }
        },
        Token::Range => {
            match parse_term(tokens, pos + 1) {
                Ok((value, after)) => Ok(
                    (ASTNode::Unary { op: Token::Range, value: Box::new(value) }, after),
                ),
                Err(error) => Err(error),
            }
        },
        Token::LParen => {
            match parse_expr(tokens, pos + 1) {
                Ok((value, after)) => {
                    match &tokens[after] {
                        Token::RParen => Ok((value, after + 1)),
                        _ => Err(expected("Expected ')'")),
                    }
                },
                Err(error) => Err(error),
            }
        },
        Token::If => parse_if(tokens, pos),
        Token::While => {
            let (cond, middle) = match parse_expr(tokens, pos + 1) {
                Ok(parsed) => parsed,
                Err(error) => {
                    return Err(error);
                },
            };
            match parse_expr(tokens, middle) {
                Ok((code, after)) => Ok(
                    (ASTNode::While { cond: Box::new(cond), code: Box::new(code) }, after),
                ),
                Err(error) => Err(error),
            }
        },
        Token::LBracket => parse_block(tokens, pos),
        Token::LSqBracket => {
            match parse_list(tokens, pos + 1, true) {
                Ok((values, after)) => {
                    let node = ASTNode::Array { values };
                    proof {
                        lemma_node_view(node);
                    }
                    Ok((node, after))
                },
                Err(error) => Err(error),
            }
        },
        Token::Or => {
            match parse_body(tokens, pos + 1) {
                Ok((code, after)) => {
                    let arg_names: Vec<String> = Vec::new();
                    assert(names_model(arg_names@) =~= Seq::empty());
                    Ok((ASTNode::Func { code: Box::new(code), arg_names }, after))
                },
                Err(error) => Err(error),
            }
        },
        Token::Pipe => {
            let (arg_names, closing) = match parse_params(tokens, pos + 1) {
                Ok(parsed) => parsed,
                Err(error) => {
                    return Err(error);
                },
            };
            match parse_body(tokens, closing + 1) {
                Ok((code, after)) => Ok((ASTNode::Func { code: Box::new(code), arg_names }, after)),
                Err(error) => Err(error),
            }
        },
        _ => Err(expected("Expected value")),
    }
}

/// A conditional: `if`, the condition and its branch, any number of `elif`
/// with theirs, and at most one `else` with its branch.
fn parse_if(tokens: &TokenList, pos: ParsePos) -> (res: ParseResult)
    requires
        terminated(tokens@),
        pos + 1 < tokens@.len(),
    ensures
        parse_model(res) == grammar::branches(tokens@, pos as int, Seq::empty()),
        advances(tokens@, pos, res),
    decreases tokens@.len() - pos, 9nat,
{
    let ghost goal = grammar::branches(tokens@, pos as int, Seq::empty());
    let mut conds: Vec<(ASTNode, ASTNode)> = Vec::new();
    let mut at: ParsePos = pos;
    assert(pairs_model(conds@) =~= Seq::empty());
    loop
        invariant
            terminated(tokens@),
            pos <= at,
            at + 1 < tokens@.len(),
            goal == grammar::branches(tokens@, pos as int, Seq::empty()),
            grammar::branches(tokens@, at as int, pairs_model(conds@)) == goal,
        decreases tokens@.len() - at,
    {
        let (cond, middle) = match parse_expr(tokens, at + 1) {
            Ok(parsed) => parsed,
            Err(error) => {
                return Err(error);
            },
        };
        let (branch, after) = match parse_expr(tokens, middle) {
            Ok(parsed) => parsed,
            Err(error) => {
                return Err(error);
            },
        };
        let ghost before = pairs_model(conds@);
        conds.push((cond, branch));
        assert(pairs_model(conds@) =~= before.push((cond@, branch@)));
        let more = match &tokens[after] {
            Token::Elif => true,
            _ => false,
        };
        let otherwise = match &tokens[after] {
            Token::Else => true,
            _ => false,
        };
        if more {
            at = after;
        } else if otherwise {
            return match parse_expr(tokens, after + 1) {
                Ok((node, end)) => {
                    let whole = ASTNode::If { conds, if_none: Box::new(Some(node)) };
                    proof {
                        lemma_node_view(whole);
                    }
                    Ok((whole, end))
                },
                Err(error) => Err(error),
            };
        } else {
            let whole = ASTNode::If { conds, if_none: Box::new(None) };
            proof {
                lemma_node_view(whole);
            }
            return Ok((whole, after));
        }
    }
}

/// A value with what follows it directly: the arguments of a call in
/// parentheses, or a position in square brackets, any number of times.
fn parse_term(tokens: &TokenList, pos: ParsePos) -> (res: ParseResult)
    requires
        terminated(tokens@),
        pos < tokens@.len(),
    ensures
        parse_model(res) == grammar::term(tokens@, pos as int),
        advances(tokens@, pos, res),
    decreases tokens@.len() - pos, 25nat,
{
    let ghost goal = grammar::term(tokens@, pos as int);
    let (first, start) = match parse_value(tokens, pos) {
        Ok(parsed) => parsed,
        Err(error) => {
            return Err(error);
        },
    };
    let mut value = first;
    let mut at = start;
    loop
        invariant
            terminated(tokens@),
            pos < at < tokens@.len(),
            goal == grammar::term(tokens@, pos as int),
            grammar::postfix(tokens@, value@, at as int) == goal,
        decreases tokens@.len() - at,
    {
        if at + 1 >= tokens.len() {
            return Ok((value, at));
        }
        let called = match &tokens[at] {
            Token::LParen => true,
            _ => false,
        };
        let indexed = match &tokens[at] {
            Token::LSqBracket => true,
            _ => false,
        };
        if called {
            let (args, after) = match parse_list(tokens, at + 1, false) {
                Ok(parsed) => parsed,
                Err(error) => {
                    return Err(error);
                },
            };
            value = ASTNode::Call { base: Box::new(value), args };
            proof {
                lemma_node_view(value);
            }
            at = after;
        } else if indexed {
            let (index, closing) = match parse_expr(tokens, at + 1) {
                Ok(parsed) => parsed,
                Err(error) => {
                    return Err(error);
                },
            };
            if closing + 1 >= tokens.len() {
                return Err(expected("Expected ']'"));
            }
            match &tokens[closing] {
                Token::RSqBracket => {},
                _ => {
                    return Err(expected("Expected ']'"));
                },
            }
            value = ASTNode::Index { base: Box::new(value), index: Box::new(index) };
            at = closing + 1;
        } else {
            return Ok((value, at));
        }
    }
}

/// A block: statements between braces.
fn parse_block(tokens: &TokenList, pos: ParsePos) -> (res: ParseResult)
    requires
        terminated(tokens@),
        pos < tokens@.len(),
    ensures
        parse_model(res) == grammar::block(tokens@, pos as int),
        advances(tokens@, pos, res),
    decreases tokens@.len() - pos, 5nat,
{
    let open = skip_eol(tokens, pos);
    if open + 1 >= tokens.len() {
        return Err(expected("Expected '{'"));
    }
    match &tokens[open] {
        Token::LBracket => {},
        _ => {
            return Err(expected("Expected '{'"));
        },
    }
    let (code, closing) = match parse_statements(tokens, open + 1) {
        Ok(parsed) => parsed,
        Err(error) => {
            return Err(error);
        },
    };
    match &tokens[closing] {
        Token::RBracket => Ok((ASTNode::Block { code: Box::new(code) }, closing + 1)),
        _ => Err(expected("Expected '}'")),
    }
}

/// An expression of binary operators of the precedence level `level` and
/// of all tighter levels.
fn parse_op(tokens: &TokenList, pos: ParsePos, level: usize) -> (res: ParseResult)
    requires
        terminated(tokens@),
        pos < tokens@.len(),
        level <= LEVELS,
    ensures
        parse_model(res) == grammar::op(tokens@, pos as int, level as int),
        advances(tokens@, pos, res),
    decreases tokens@.len() - pos, 40 - level,
{
    if level >= LEVELS {
        return parse_term(tokens, pos);
    }
    let ghost goal = grammar::op(tokens@, pos as int, level as int);
    let (first, start) = match parse_op(tokens, pos, level + 1) {
        Ok(parsed) => parsed,
        Err(error) => {
            return Err(error);
        },
    };
    let mut left = first;
    let mut at = start;
    while at + 1 < tokens.len() && in_level(level, &tokens[at])
        invariant
            terminated(tokens@),
            pos < at < tokens@.len(),
            level < LEVELS,
            goal == grammar::op(tokens@, pos as int, level as int),
            grammar::op_tail(tokens@, left@, at as int, level as int) == goal,
        decreases tokens@.len() - at,
    {
        let op = tokens[at].clone();
        let next = if level == 0 || level == 6 {
            level
        } else {
            level + 1
        };
        let (right, after) = match parse_op(tokens, at + 1, next) {
            Ok(parsed) => parsed,
            Err(error) => {
                return Err(error);
            },
        };
        left = ASTNode::Op { left: Box::new(left), op, right: Box::new(right) };
        at = after;
    }
    Ok((left, at))
}

/// An expression.
fn parse_expr(tokens: &TokenList, pos: ParsePos) -> (res: ParseResult)
    requires
        terminated(tokens@),
        pos < tokens@.len(),
    ensures
        parse_model(res) == grammar::expr(tokens@, pos as int),
        advances(tokens@, pos, res),
    decreases tokens@.len() - pos, 50nat,
{
    parse_op(tokens, pos, 0)
}

/// A statement: an expression up to the end of its line, or up to the end
/// of the block or of the program.
fn parse_statement(tokens: &TokenList, pos: ParsePos) -> (res: ParseResult)
    requires
        terminated(tokens@),
        pos < tokens@.len(),
    ensures
        parse_model(res) == grammar::statement(tokens@, pos as int),
        advances(tokens@, pos, res),
    decreases tokens@.len() - pos, 59nat,
{
    let (statement, after) = match parse_expr(tokens, pos) {
        Ok(parsed) => parsed,
        Err(error) => {
            return Err(error);
        },
    };
    match &tokens[after] {
        Token::Eol => Ok((statement, after + 1)),
        Token::Eof => Ok((statement, after)),
        Token::RBracket => Ok((statement, after)),
        _ => Err(expected("Expected end of line (';' or newline)")),
    }
}

/// Statements up to the end of the block or of the program.
fn parse_statements(tokens: &TokenList, pos: ParsePos) -> (res: ParseResult)
    requires
        terminated(tokens@),
        pos < tokens@.len(),
    ensures
        parse_model(res) == grammar::statements(tokens@, pos as int),
        res matches Ok((_, after)) ==> pos <= after < tokens@.len(),
    decreases tokens@.len() - pos, 61nat,
{
    let ghost goal = grammar::statements(tokens@, pos as int);
    let mut statements: Vec<ASTNode> = Vec::new();
    let mut at = skip_eol(tokens, pos);
    assert(nodes_model(statements@) =~= Seq::empty());
    loop
        invariant
            terminated(tokens@),
            pos <= at < tokens@.len(),
            goal == grammar::statements(tokens@, pos as int),
            grammar::statements_from(tokens@, at as int, nodes_model(statements@)) == goal,
        decreases tokens@.len() - at,
    {
        let ended = match &tokens[at] {
            Token::Eof => true,
            Token::RBracket => true,
            _ => false,
        };
        if ended {
            let whole = ASTNode::StatementList { statements };
            proof {
                lemma_node_view(whole);
            }
            return Ok((whole, at));
        }
        let (statement, after) = match parse_statement(tokens, at) {
            Ok(parsed) => parsed,
            Err(error) => {
                return Err(error);
            },
        };
        let ghost before = nodes_model(statements@);
        statements.push(statement);
        assert(nodes_model(statements@) =~= before.push(statement@));
        at = skip_eol(tokens, after);
    }
}

/// Parses a program: the tree that the grammar gives for the tokens, and
/// the position of the end-of-file token that ends the program. A token
/// list that does not end with the end-of-file token is refused.
pub fn parse(tokens: &TokenList) -> (res: ParseResult)
    ensures
        parse_model(res) == grammar::program(tokens@),
{
    if tokens.len() == 0 || !is_eof(&tokens[tokens.len() - 1]) {
        return Err(expected("Expected end of file"));
    }
    let (result, pos) = match parse_statements(tokens, 0) {
        Ok(parsed) => parsed,
        Err(error) => {
            return Err(error);
        },
    };
    if !is_eof(&tokens[pos]) {
        return Err(expected("Expected end of file"));
    }
    Ok((ASTNode::Value { value: Box::new(result) }, pos))
}

} // verus!

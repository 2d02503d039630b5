use bluebat::errors::BaseError;
use bluebat::lexer::{convert_string, Token};
use bluebat::parser::{parse, ASTNode};

fn ident(name: &str) -> Token {
    Token::Identifier(name.to_string())
}

fn number(x: f64) -> Token {
    Token::Number(x.to_bits())
}

fn program(mut tokens: Vec<Token>) -> Result<ASTNode, BaseError> {
    tokens.push(Token::Eol);
    tokens.push(Token::Eof);
    let count = tokens.len();
    match parse(&tokens) {
        Ok((ASTNode::Value { value }, pos)) => {
            assert_eq!(pos, count - 1);
            match *value {
                ASTNode::StatementList { mut statements } => {
                    assert_eq!(statements.len(), 1);
                    Ok(statements.remove(0))
                }
                other => panic!("not a statement list: {:?}", other),
            }
        }
        Ok(other) => panic!("not wrapped: {:?}", other),
        Err(error) => Err(error),
    }
}

fn shape(node: &ASTNode) -> String {
    match node {
        ASTNode::Num { value } => f64::from_bits(*value).to_string(),
        ASTNode::Var { name } => name.clone(),
        ASTNode::Constant { value } => format!("{:?}", value),
        ASTNode::Op { left, op, right } => format!("({} {:?} {})", shape(left), op, shape(right)),
        ASTNode::Unary { op, value } => format!("({:?} {})", op, shape(value)),
        ASTNode::Call { base, args } => {
            format!("{}({})", shape(base), args.iter().map(shape).collect::<Vec<_>>().join(","))
        }
        ASTNode::Index { base, index } => format!("{}[{}]", shape(base), shape(index)),
        ASTNode::Array { values } => {
            format!("[{}]", values.iter().map(shape).collect::<Vec<_>>().join(","))
        }
        ASTNode::Block { code } => format!("{{{}}}", shape(code)),
        ASTNode::StatementList { statements } => {
            statements.iter().map(shape).collect::<Vec<_>>().join(";")
        }
        ASTNode::Func { code, arg_names } => format!("|{}|{}", arg_names.join(","), shape(code)),
        ASTNode::If { conds, if_none } => {
            let mut out = String::new();
            for (cond, body) in conds {
                out.push_str(&format!("if {} then {} ", shape(cond), shape(body)));
            }
            if let Some(node) = &**if_none {
                out.push_str(&format!("else {}", shape(node)));
            }
            out
        }
        ASTNode::While { cond, code } => format!("while {} do {}", shape(cond), shape(code)),
        ASTNode::Value { value } => shape(value),
    }
}

fn parsed(tokens: Vec<Token>) -> String {
    shape(&program(tokens).expect("the program parses"))
}

fn refused(tokens: Vec<Token>) -> String {
    match program(tokens) {
        Err(BaseError::ParseError(message)) => message,
        other => panic!("not a parse error: {:?}", other),
    }
}

#[test]
fn binary_operators_follow_their_levels() {
    assert_eq!(
        parsed(vec![number(1.0), Token::Plus, number(2.0), Token::Mult, number(3.0)]),
        "(1 Plus (2 Mult 3))"
    );
    assert_eq!(
        parsed(vec![number(1.0), Token::Minus, number(2.0), Token::Minus, number(3.0)]),
        "((1 Minus 2) Minus 3)"
    );
    assert_eq!(
        parsed(vec![number(2.0), Token::Pow, number(3.0), Token::Pow, number(2.0)]),
        "(2 Pow (3 Pow 2))"
    );
    assert_eq!(
        parsed(vec![ident("a"), Token::Assign, ident("b"), Token::Assign, number(1.0)]),
        "(a Assign (b Assign 1))"
    );
    assert_eq!(
        parsed(vec![
            ident("a"),
            Token::Or,
            ident("b"),
            Token::And,
            ident("c"),
            Token::Eq,
            number(1.0),
            Token::Plus,
            number(2.0)
        ]),
        "(a Or (b And (c Eq (1 Plus 2))))"
    );
    assert_eq!(
        parsed(vec![
            ident("s"),
            Token::As,
            Token::TypeName("number".to_string()),
            Token::Eq,
            number(3.5)
        ]),
        "((s As TypeName(\"number\")) Eq 3.5)"
    );
}

#[test]
fn unary_operators_take_a_product() {
    assert_eq!(
        parsed(vec![Token::Minus, ident("a"), Token::Mult, ident("b"), Token::Plus, ident("c")]),
        "((Minus (a Mult b)) Plus c)"
    );
    assert_eq!(parsed(vec![Token::Not, Token::True]), "(Not Bool(true))");
}

#[test]
fn calls_and_indices_chain() {
    assert_eq!(
        parsed(vec![
            ident("f"),
            Token::LParen,
            number(1.0),
            Token::Comma,
            ident("x"),
            Token::RParen,
            Token::LSqBracket,
            number(0.0),
            Token::RSqBracket,
            Token::LParen,
            Token::RParen
        ]),
        "f(1,x)[0]()"
    );
}

#[test]
fn arrays_and_spreads() {
    assert_eq!(
        parsed(vec![
            Token::LSqBracket,
            ident("a"),
            Token::Comma,
            Token::Range,
            ident("b"),
            Token::RSqBracket,
            Token::Assign,
            Token::LSqBracket,
            Token::RSqBracket
        ]),
        "([a,(Range b)] Assign [])"
    );
}

#[test]
fn functions_blocks_and_control() {
    assert_eq!(
        parsed(vec![
            Token::Pipe,
            ident("x"),
            Token::Comma,
            ident("y"),
            Token::Pipe,
            Token::LBracket,
            ident("x"),
            Token::Eol,
            ident("y"),
            Token::RBracket,
            Token::LParen,
            Token::RParen
        ]),
        "|x,y|{x;y}()"
    );
    assert_eq!(parsed(vec![Token::Or, number(1.0)]), "||1");
    assert_eq!(
        parsed(vec![
            Token::If,
            ident("a"),
            number(1.0),
            Token::Elif,
            ident("b"),
            number(2.0),
            Token::Else,
            number(3.0)
        ]),
        "if a then 1 if b then 2 else 3"
    );
    assert_eq!(
        parsed(vec![Token::While, ident("a"), Token::LBracket, Token::RBracket]),
        "while a do {}"
    );
    assert_eq!(
        parsed(vec![Token::LParen, ident("a"), Token::RParen, Token::Mult, Token::Null]),
        "(a Mult Null)"
    );
    assert_eq!(parsed(vec![Token::StringLiteral("hi".to_string())]), "String(\"hi\")");
}

#[test]
fn empty_programs_parse() {
    for tokens in [vec![Token::Eof], vec![Token::Eol, Token::Eol, Token::Eof]] {
        match parse(&tokens) {
            Ok((ASTNode::Value { value }, pos)) => {
                assert_eq!(pos, tokens.len() - 1);
                assert!(matches!(*value, ASTNode::StatementList { ref statements } if statements.is_empty()));
            }
            other => panic!("unexpected {:?}", other),
        }
    }
}

#[test]
fn malformed_programs_are_refused() {
    assert_eq!(refused(vec![Token::Plus]), "Expected value");
    assert_eq!(refused(vec![Token::LParen, ident("a")]), "Expected ')'");
    assert_eq!(refused(vec![ident("a"), ident("b")]), "Expected end of line (';' or newline)");
    assert_eq!(refused(vec![Token::LBracket, ident("a")]), "Expected '}'");
    assert_eq!(refused(vec![ident("f"), Token::LParen, ident("a"), ident("b")]), "Expected ',' or ')'");
    assert_eq!(refused(vec![Token::LSqBracket, ident("a"), ident("b")]), "Expected ',' or ']'");
    assert_eq!(refused(vec![ident("a"), Token::LSqBracket, ident("b")]), "Expected ']'");
    assert_eq!(refused(vec![Token::Pipe, number(1.0)]), "Expected argument name");
    assert_eq!(refused(vec![Token::Pipe, ident("a"), ident("b")]), "Expected ',' or '|'");
    assert_eq!(refused(vec![Token::RBracket]), "Expected end of file");
    assert!(matches!(parse(&vec![]), Err(BaseError::ParseError(_))));
    assert!(matches!(parse(&vec![ident("a")]), Err(BaseError::ParseError(_))));
}

#[test]
fn string_escapes_are_resolved() {
    assert_eq!(convert_string("a\\nb"), "a\nb");
    assert_eq!(convert_string("a\rb"), "ab");
    assert_eq!(convert_string("a\\rb"), "a\rb");
    assert_eq!(convert_string("say \\\"hi\\\""), "say \"hi\"");
    assert_eq!(convert_string("it\\'s"), "it's");
    assert_eq!(convert_string("plain"), "plain");
    assert_eq!(convert_string(""), "");
    assert_eq!(convert_string("\\\\n"), "\\\n");
}

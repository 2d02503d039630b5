use bluebat::errors::BaseError;
use bluebat::evaluator::machine::register_builtins;
use bluebat::evaluator::{Reply, Request};
use bluebat::interpreter::{start_execute, Memory, ScopeList};
use bluebat::lexer::Token;
use bluebat::lexer::convert_string;
use bluebat::parser::{parse, ASTNode};
use bluebat::value::{NumberFn, NumberOp, Piece, Value};

fn render(pieces: &[Piece]) -> String {
    let mut out = String::new();
    for piece in pieces {
        match piece {
            Piece::Text(text) => out.push_str(text),
            Piece::Number(bits) => out.push_str(&f64::from_bits(*bits).to_string()),
        }
    }
    out
}

struct Host {
    memory: Memory,
    scopes: ScopeList,
    output: String,
    input: Vec<String>,
}

impl Host {
    fn new() -> Host {
        let mut memory = Memory::new();
        let mut scopes = ScopeList::new();
        assert!(register_builtins(&mut scopes, &mut memory));
        Host { memory, scopes, output: String::new(), input: Vec::new() }
    }

    fn run(&mut self, node: &ASTNode) -> Result<Value, BaseError> {
        let mut execution = start_execute(node, &mut self.scopes, &mut self.memory);
        let mut reply = Reply::Nothing;
        loop {
            let request = execution.run(&mut self.memory, &mut self.scopes, reply, 100_000);
            reply = match request {
                Request::Continue => Reply::Nothing,
                Request::Binary { op, left, right } => {
                    let a = f64::from_bits(left);
                    let b = f64::from_bits(right);
                    let r = match op {
                        NumberOp::Add => a + b,
                        NumberOp::Sub => a - b,
                        NumberOp::Mul => a * b,
                        NumberOp::Div => a / b,
                        NumberOp::Rem => a % b,
                        NumberOp::Pow => a.powf(b),
                    };
                    Reply::Number(r.to_bits())
                }
                Request::Unary { function, argument } => {
                    let a = f64::from_bits(argument);
                    let r = match function {
                        NumberFn::Sin => a.sin(),
                        NumberFn::Cos => a.cos(),
                        NumberFn::Tan => a.tan(),
                    };
                    Reply::Number(r.to_bits())
                }
                Request::Parse { text } => Reply::Parsed(text.parse::<f64>().ok().map(|x| x.to_bits())),
                Request::Render { pieces } => Reply::Text(render(&pieces)),
                Request::Print { pieces, newline } => {
                    self.output.push_str(&render(&pieces));
                    if newline {
                        self.output.push('\n');
                    }
                    Reply::Done
                }
                Request::Input { prompt } => {
                    self.output.push_str(&prompt);
                    Reply::Line(self.input.remove(0))
                }
                Request::Dump => Reply::Done,
                Request::Finished { result } => return result,
                Request::Idle => panic!("nothing to run"),
            };
        }
    }
}

fn is_name_start(c: char) -> bool {
    c.is_ascii_alphabetic() || c == '_'
}

fn is_name_part(c: char) -> bool {
    c.is_ascii_alphanumeric() || c == '_'
}

fn tokenize(source: &str) -> Vec<Token> {
    let chars: Vec<char> = source.chars().collect();
    let mut tokens = Vec::new();
    let mut i = 0;
    let symbols: [(&str, Token); 33] = [
        ("+=", Token::PlusEq),
        ("-=", Token::MinusEq),
        ("*=", Token::MultEq),
        ("/=", Token::DivEq),
        ("%=", Token::ModEq),
        ("^=", Token::PowEq),
        ("<=", Token::LesserEq),
        (">=", Token::GreaterEq),
        ("!=", Token::NotEq),
        (":=", Token::LocalAssign),
        ("==", Token::Eq),
        ("||", Token::Or),
        ("&&", Token::And),
        ("..", Token::Range),
        ("+", Token::Plus),
        ("-", Token::Minus),
        ("*", Token::Mult),
        ("/", Token::Div),
        ("%", Token::Mod),
        ("^", Token::Pow),
        ("(", Token::LParen),
        (")", Token::RParen),
        ("<", Token::Lesser),
        (">", Token::Greater),
        ("!", Token::Not),
        ("{", Token::LBracket),
        ("}", Token::RBracket),
        ("[", Token::LSqBracket),
        ("]", Token::RSqBracket),
        (",", Token::Comma),
        (":", Token::Colon),
        ("=", Token::Assign),
        ("|", Token::Pipe),
    ];
    while i < chars.len() {
        let c = chars[i];
        if c == ' ' || c == '\t' {
            i += 1;
        } else if c == ';' || c == '\n' || c == '\r' {
            tokens.push(Token::Eol);
            i += 1;
        } else if c.is_ascii_digit() {
            let start = i;
            while i < chars.len() && chars[i].is_ascii_digit() {
                i += 1;
            }
            if i + 1 < chars.len() && chars[i] == '.' && chars[i + 1].is_ascii_digit() {
                i += 1;
                while i < chars.len() && chars[i].is_ascii_digit() {
                    i += 1;
                }
            }
            let text: String = chars[start..i].iter().collect();
            tokens.push(Token::Number(text.parse::<f64>().unwrap().to_bits()));
        } else if c == '"' || c == '\'' {
            let start = i + 1;
            i += 1;
            while chars[i] != c {
                if chars[i] == '\\' {
                    i += 1;
                }
                i += 1;
            }
            let body: String = chars[start..i].iter().collect();
            tokens.push(Token::StringLiteral(convert_string(&body)));
            i += 1;
        } else if c == '#' {
            let start = i + 1;
            i += 1;
            while i < chars.len() && is_name_part(chars[i]) {
                i += 1;
            }
            tokens.push(Token::TypeName(chars[start..i].iter().collect()));
        } else if is_name_start(c) {
            let start = i;
            while i < chars.len() && is_name_part(chars[i]) {
                i += 1;
            }
            let word: String = chars[start..i].iter().collect();
            tokens.push(match word.as_str() {
                "True" => Token::True,
                "False" => Token::False,
                "Null" => Token::Null,
                "if" => Token::If,
                "elif" => Token::Elif,
                "else" => Token::Else,
                "while" => Token::While,
                "as" => Token::As,
                _ => Token::Identifier(word),
            });
        } else {
            let mut found = false;
            for (text, token) in symbols.iter() {
                let symbol: Vec<char> = text.chars().collect();
                if chars[i..].starts_with(&symbol) {
                    tokens.push(token.clone());
                    i += symbol.len();
                    found = true;
                    break;
                }
            }
            if !found {
                tokens.push(Token::Error);
                i += 1;
            }
        }
    }
    tokens.push(Token::Eol);
    tokens.push(Token::Eof);
    tokens
}

fn eval(host: &mut Host, source: &str) -> Result<Value, BaseError> {
    let (node, _) = parse(&tokenize(source)).expect("the program parses");
    host.run(&node)
}

fn show(host: &mut Host, source: &str) -> String {
    let value = eval(host, source).expect("the program runs");
    let mut visited = Vec::new();
    render(&value.to_str(&host.memory, &mut visited))
}

fn show_node(host: &mut Host, node: &ASTNode) -> String {
    let value = host.run(node).expect("the program runs");
    let mut visited = Vec::new();
    render(&value.to_str(&host.memory, &mut visited))
}

fn output_of(source: &str) -> String {
    let mut host = Host::new();
    eval(&mut host, source).expect("the program runs");
    host.output
}

fn message_of(result: Result<Value, BaseError>) -> String {
    match result {
        Err(BaseError::InterpreterError(message)) => message,
        other => panic!("not an evaluation error: {:?}", other),
    }
}

fn num(x: f64) -> ASTNode {
    ASTNode::Num { value: x.to_bits() }
}

fn var(name: &str) -> ASTNode {
    ASTNode::Var { name: name.to_string() }
}

fn op(left: ASTNode, op: Token, right: ASTNode) -> ASTNode {
    ASTNode::Op { left: Box::new(left), op, right: Box::new(right) }
}

fn call(base: ASTNode, args: Vec<ASTNode>) -> ASTNode {
    ASTNode::Call { base: Box::new(base), args }
}

fn list(statements: Vec<ASTNode>) -> ASTNode {
    ASTNode::StatementList { statements }
}

fn block(statements: Vec<ASTNode>) -> ASTNode {
    ASTNode::Block { code: Box::new(list(statements)) }
}

fn number(value: &Value) -> f64 {
    match value {
        Value::Number(bits) => f64::from_bits(*bits),
        other => panic!("not a number: {:?}", other),
    }
}

#[test]
fn prints_arithmetic_with_precedence() {
    let mut host = Host::new();
    let program = call(
        var("println"),
        vec![op(num(1.0), Token::Plus, op(num(2.0), Token::Mult, num(3.0)))],
    );
    let result = host.run(&program);
    assert!(matches!(result, Ok(Value::Null)));
    assert_eq!(host.output, "7\n");
}

#[test]
fn while_loop_counts_to_five() {
    let mut host = Host::new();
    let program = list(vec![
        op(var("a"), Token::LocalAssign, num(1.0)),
        ASTNode::While {
            cond: Box::new(op(var("a"), Token::Lesser, num(5.0))),
            code: Box::new(block(vec![op(var("a"), Token::PlusEq, num(1.0))])),
        },
        call(var("println"), vec![var("a")]),
    ]);
    host.run(&program).unwrap();
    assert_eq!(host.output, "5\n");
}

#[test]
fn function_call_adds_arguments() {
    let mut host = Host::new();
    let program = list(vec![
        op(
            var("f"),
            Token::LocalAssign,
            ASTNode::Func {
                code: Box::new(block(vec![op(var("x"), Token::Plus, var("y"))])),
                arg_names: vec!["x".to_string(), "y".to_string()],
            },
        ),
        call(var("println"), vec![call(var("f"), vec![num(3.0), num(4.0)])]),
    ]);
    host.run(&program).unwrap();
    assert_eq!(host.output, "7\n");
}

#[test]
fn inner_local_assignment_does_not_leak() {
    let mut host = Host::new();
    let program = list(vec![
        op(var("a"), Token::Assign, num(1.0)),
        block(vec![op(var("a"), Token::LocalAssign, num(2.0)), var("a")]),
    ]);
    let inner = host.run(&program).unwrap();
    assert_eq!(number(&inner), 2.0);
    let outer = host.run(&var("a")).unwrap();
    assert_eq!(number(&outer), 1.0);
}

#[test]
fn scenario_arithmetic() {
    assert_eq!(output_of("println(1 + 2 * 3)"), "7\n");
}

#[test]
fn scenario_while() {
    assert_eq!(output_of("a := 1; while a < 5 { a += 1 }; println(a)"), "5\n");
}

#[test]
fn scenario_function() {
    assert_eq!(output_of("f := |x, y| { x + y }; println(f(3, 4))"), "7\n");
}

#[test]
fn scenario_counter() {
    assert_eq!(
        output_of("counter := || { n := 0; || { n += 1; n } }(); println(counter()); println(counter())"),
        "1\n2\n"
    );
}

#[test]
fn scenario_destructuring_sum() {
    assert_eq!(output_of("[a, b, c] = [10, 20, 30]; println(a + b + c)"), "60\n");
}

#[test]
fn scenario_head_and_tail() {
    assert_eq!(output_of("v := [1,2,3,4,5]; [h, ..t] = v; println(t)"), "[2,3,4,5]\n");
}

#[test]
fn lookup_shadowing() {
    let mut host = Host::new();
    assert_eq!(show(&mut host, "a = 1; { a := 2; a }"), "2");
    assert_eq!(show(&mut host, "a"), "1");
}

#[test]
fn assignment_writes_to_the_nearest_binding() {
    let mut host = Host::new();
    assert_eq!(show(&mut host, "a = 1; { a = 2 }; a"), "2");
    assert_eq!(show(&mut host, "{ fresh = 3 }; 0"), "0");
    let missing = eval(&mut host, "fresh");
    assert_eq!(message_of(missing), "Unknown variable fresh");
}

#[test]
fn closure_capture() {
    let mut host = Host::new();
    assert_eq!(
        show(&mut host, "make = || { x := 0; || { x += 1; x } }; c = make(); c(); c(); c()"),
        "3"
    );
    assert_eq!(show(&mut host, "d = make(); d()"), "1");
}

#[test]
fn array_aliasing() {
    let mut host = Host::new();
    assert_eq!(show(&mut host, "a = [1,2]; b = a; b[0] = 9; a[0]"), "9");
}

#[test]
fn concatenation_shares_cells() {
    let mut host = Host::new();
    assert_eq!(show(&mut host, "a = [1]; b = [2]; c = a + b; c[0] = 7; a[0]"), "7");
    assert_eq!(show(&mut host, "c"), "[7,2]");
    assert_eq!(show(&mut host, "c[1] += 5; b"), "[7]");
}

#[test]
fn collection_removes_cycles_and_keeps_roots() {
    let mut host = Host::new();
    eval(&mut host, "keep = [1, 2, 3]; i := 0; while i < 50 { { h := || { h }; 0 }; i += 1 }").unwrap();
    let frames_before = host.scopes.len();
    let cells_before = host.memory.len();
    eval(&mut host, "collect()").unwrap();
    assert!(host.memory.len() < cells_before);
    assert!(host.scopes.len() < frames_before);
    assert_eq!(host.scopes.len(), 1);
    assert!(host.memory.last_amount() <= host.memory.len());
    assert!(host.memory.last_amount() < cells_before);
    assert_eq!(show(&mut host, "keep"), "[1,2,3]");
    assert_eq!(show(&mut host, "keep[1]"), "2");
    let settled = host.memory.len();
    eval(&mut host, "collect()").unwrap();
    assert!(host.memory.len() <= settled);
    assert_eq!(show(&mut host, "keep"), "[1,2,3]");
}

#[test]
fn collection_keeps_what_a_closure_captured() {
    let mut host = Host::new();
    eval(&mut host, "make = || { x := 41; || { x += 1; x } }; c = make(); collect()").unwrap();
    assert_eq!(show(&mut host, "c()"), "42");
    eval(&mut host, "collect()").unwrap();
    assert_eq!(show(&mut host, "c()"), "43");
}

#[test]
fn destructuring_spreads() {
    let mut host = Host::new();
    eval(&mut host, "[a, ..b, c] = [1,2,3,4,5]").unwrap();
    assert_eq!(show(&mut host, "a"), "1");
    assert_eq!(show(&mut host, "b"), "[2,3,4]");
    assert_eq!(show(&mut host, "c"), "5");
    eval(&mut host, "[..x, ..y] = [1,2,3]").unwrap();
    assert_eq!(show(&mut host, "x"), "[1,2]");
    assert_eq!(show(&mut host, "y"), "[3]");
    eval(&mut host, "[..p, ..q, ..r] = [1,2,3,4,5,6,7]").unwrap();
    assert_eq!(show(&mut host, "p"), "[1,2,3]");
    assert_eq!(show(&mut host, "q"), "[4,5]");
    assert_eq!(show(&mut host, "r"), "[6,7]");
}

#[test]
fn destructuring_edges() {
    let mut host = Host::new();
    eval(&mut host, "[a, ..b] = [1]").unwrap();
    assert_eq!(show(&mut host, "b"), "[]");
    eval(&mut host, "[m, [n, o]] = [1, [2, 3]]").unwrap();
    assert_eq!(show(&mut host, "n + o"), "5");
    let short = eval(&mut host, "[u, v] = [1]");
    assert_eq!(message_of(short), "Cannot destructure: lengths differ");
    let few = eval(&mut host, "[u, ..v, w] = [1]");
    assert_eq!(message_of(few), "Cannot destructure: lengths differ");
    let flat = eval(&mut host, "[u, v] = 3");
    assert_eq!(message_of(flat), "cannot destructure non-array");
    eval(&mut host, "t = [0, 0]; [t[0], t[1]] = [8, 9]").unwrap();
    assert_eq!(show(&mut host, "t"), "[8,9]");
    let text = eval(&mut host, "s = \"ab\"; [s[0]] = [1]");
    assert_eq!(message_of(text), "cannot assign to string index");
}

#[test]
fn short_circuit() {
    let mut host = Host::new();
    assert_eq!(show(&mut host, "False && undefined_var"), "False");
    assert_eq!(show(&mut host, "True || undefined_var"), "True");
    assert_eq!(show(&mut host, "True && False"), "False");
    assert_eq!(show(&mut host, "False || True"), "True");
    let unbound = eval(&mut host, "True && undefined_var");
    assert_eq!(message_of(unbound), "Unknown variable undefined_var");
    let untrue = eval(&mut host, "1 && True");
    assert_eq!(message_of(untrue), "Cannot convert to boolean");
}

#[test]
fn cyclic_print_terminates() {
    assert_eq!(output_of("a = [0]; a[0] = a; println(a)"), "[[...]]\n");
    assert_eq!(output_of("a = [0]; b = [0]; a[0] = b; b[0] = a; println(a)"), "[[...]]\n");
    assert_eq!(output_of("a = [0, 1]; a[0] = a; println(a)"), "[[...],1]\n");
}

#[test]
fn cyclic_equality_terminates() {
    let mut host = Host::new();
    assert_eq!(show(&mut host, "a = [0]; b = [0]; a[0] = b; b[0] = a; a == b"), "True");
    assert_eq!(show(&mut host, "[1, [2, 3]] == [1, [2, 3]]"), "True");
    assert_eq!(show(&mut host, "[1, [2, 3]] == [1, [2, 4]]"), "False");
    assert_eq!(show(&mut host, "[1, [2, 3]] != [1, [2, 4]]"), "True");
    assert_eq!(show(&mut host, "[] == []"), "True");
    assert_eq!(show(&mut host, "[1] == [1, 2]"), "False");
}

#[test]
fn string_indexing_is_read_only() {
    let mut host = Host::new();
    assert_eq!(show(&mut host, "s = \"abc\"; s[0]"), "a");
    assert_eq!(show(&mut host, "s[2]"), "c");
    let write = eval(&mut host, "s[0] = \"z\"");
    assert_eq!(message_of(write), "cannot assign to string index");
    let compound = eval(&mut host, "s[0] += \"z\"");
    assert_eq!(message_of(compound), "cannot assign to string index");
    assert_eq!(show(&mut host, "s"), "abc");
    let beyond = eval(&mut host, "s[3]");
    assert_eq!(message_of(beyond), "Index out of bounds");
}

#[test]
fn cast_round_trip() {
    let mut host = Host::new();
    assert_eq!(show(&mut host, "\"3.5\" as #number == 3.5"), "True");
    assert_eq!(show(&mut host, "(3.5) as #string == \"3.5\""), "True");
    assert_eq!(show(&mut host, "\"abc\" as #string"), "abc");
    assert_eq!(show(&mut host, "[1, \"x\", True] as #string"), "[1,x,True]");
    let failed = eval(&mut host, "\"abc\" as #number");
    assert_eq!(message_of(failed), "Couldn't convert string to number");
    let unknown = eval(&mut host, "1 as #thing");
    assert_eq!(message_of(unknown), "Couldn't convert");
    let untyped = eval(&mut host, "1 as 2");
    assert_eq!(message_of(untyped), "Casting not defined for types");
}

#[test]
fn nan_is_not_equal_to_itself() {
    let mut host = Host::new();
    assert_eq!(show(&mut host, "n = 0 / 0; n == n"), "False");
    assert_eq!(show(&mut host, "n != n"), "True");
    assert_eq!(show(&mut host, "0 == -0"), "True");
}

#[test]
fn print_joins_without_separator() {
    assert_eq!(output_of("print(1, 2, \"x\")"), "12x");
    assert_eq!(output_of("println()"), "\n");
    assert_eq!(output_of("println(Null, True, #number, println, || 1)"), "NullTrue#number<builtin: println>|...| {...}\n");
}

#[test]
fn input_strips_the_line_end() {
    let mut host = Host::new();
    host.input.push("hello\r\n".to_string());
    assert_eq!(show(&mut host, "input(\"name? \")"), "hello");
    assert_eq!(host.output, "name? ");
    let wrong = eval(&mut host, "input(1)");
    assert_eq!(message_of(wrong), "Expected string for argument");
}

#[test]
fn builtins() {
    let mut host = Host::new();
    assert_eq!(show(&mut host, "len([1, 2, 3])"), "3");
    assert_eq!(show(&mut host, "len(\"héllo\")"), "5");
    assert_eq!(show(&mut host, "sin(0)"), "0");
    assert_eq!(show(&mut host, "cos(0)"), "1");
    assert_eq!(show(&mut host, "tan(0)"), "0");
    assert_eq!(show(&mut host, "memtest()"), "Null");
    assert_eq!(message_of(eval(&mut host, "sin(1, 2)")), "Expected 1 argument");
    assert_eq!(message_of(eval(&mut host, "collect(1)")), "Expected 0 arguments");
    assert_eq!(message_of(eval(&mut host, "len(1)")), "Cannot get length of type");
    assert_eq!(message_of(eval(&mut host, "sin(\"x\")")), "Expected number for argument");
    assert_eq!(message_of(eval(&mut host, "3(1)")), "Invalid base for call");
    assert_eq!(message_of(eval(&mut host, "f = |a, b| a; f(1)")), "Expected 2 argument(s)");
    assert_eq!(
        message_of(eval(&mut host, "g = |a, b, c, d, e, f, g, h, i, j, k, l| a; g()")),
        "Expected 12 argument(s)"
    );
}

#[test]
fn conditionals() {
    let mut host = Host::new();
    assert_eq!(show(&mut host, "if True 1 else 2"), "1");
    assert_eq!(show(&mut host, "if False 1 else 2"), "2");
    assert_eq!(show(&mut host, "if False 1 elif True 3 else 2"), "3");
    assert_eq!(show(&mut host, "if False 1"), "Null");
    assert_eq!(show(&mut host, "x = 5; if x > 3 { x := 1; x } else { 0 }"), "1");
    assert_eq!(show(&mut host, "x"), "5");
    assert_eq!(message_of(eval(&mut host, "if 1 2")), "Cannot convert to boolean");
    assert_eq!(show(&mut host, "while False 1"), "Null");
}

#[test]
fn operators() {
    let mut host = Host::new();
    assert_eq!(show(&mut host, "7 % 4"), "3");
    assert_eq!(show(&mut host, "-7 % 4"), "-3");
    assert_eq!(show(&mut host, "2 ^ 10"), "1024");
    assert_eq!(show(&mut host, "2 ^ 3 ^ 2"), "512");
    assert_eq!(show(&mut host, "10 / 4"), "2.5");
    assert_eq!(show(&mut host, "\"ab\" + \"cd\""), "abcd");
    assert_eq!(show(&mut host, "\"ab\" * 3"), "ababab");
    assert_eq!(show(&mut host, "\"ab\" * 2.9"), "abab");
    assert_eq!(show(&mut host, "\"ab\" * -1"), "");
    assert_eq!(show(&mut host, "[1] + [2, 3]"), "[1,2,3]");
    assert_eq!(show(&mut host, "!True"), "False");
    assert_eq!(show(&mut host, "+3"), "3");
    assert_eq!(show(&mut host, "1 < 2"), "True");
    assert_eq!(show(&mut host, "2 <= 2"), "True");
    assert_eq!(show(&mut host, "1 > 2"), "False");
    assert_eq!(show(&mut host, "2 >= 3"), "False");
    assert_eq!(show(&mut host, "#a == #a"), "True");
    assert_eq!(message_of(eval(&mut host, "1 + \"a\"")), "Operation '+' not defined for types");
    assert_eq!(message_of(eval(&mut host, "1 == \"a\"")), "Operation '==' not defined for types");
    assert_eq!(message_of(eval(&mut host, "\"a\" < \"b\"")), "Operation '<' not defined for types");
    assert_eq!(message_of(eval(&mut host, "-\"a\"")), "Unary operation '-' not defined for type");
    assert_eq!(message_of(eval(&mut host, "..1")), "Non '+','-','!' unary operation");
}

#[test]
fn indexing() {
    let mut host = Host::new();
    assert_eq!(show(&mut host, "a = [10, 20, 30]; a[1]"), "20");
    assert_eq!(show(&mut host, "a[1.9]"), "20");
    assert_eq!(show(&mut host, "a[-0]"), "10");
    assert_eq!(show(&mut host, "a[0 / 0]"), "10");
    assert_eq!(message_of(eval(&mut host, "a[3]")), "Index out of bounds");
    assert_eq!(message_of(eval(&mut host, "a[-1]")), "Index out of bounds");
    assert_eq!(message_of(eval(&mut host, "a[\"x\"]")), "Cannot index with type");
    assert_eq!(message_of(eval(&mut host, "5[0]")), "Type cannot be indexed");
    assert_eq!(message_of(eval(&mut host, "nothing[0] = 1")), "Unknown variable nothing");
    assert_eq!(message_of(eval(&mut host, "1 = 2")), "Expected variable name");
    assert_eq!(message_of(eval(&mut host, "1 := 2")), "Expected variable name");
    assert_eq!(message_of(eval(&mut host, "nothing += 1")), "Unknown variable nothing");
    assert_eq!(show(&mut host, "m = [[1, 2], [3, 4]]; m[1][0] = 9; m"), "[[1,2],[9,4]]");
    assert_eq!(show(&mut host, "a[2] *= 2; a"), "[10,20,60]");
}

#[test]
fn protected_frames_are_popped_on_every_exit() {
    let mut host = Host::new();
    eval(&mut host, "a = [1, [2, 3]]; f = |x| { x + 1 }; f(a[0])").unwrap();
    assert_eq!(host.memory.protected_depth(), 0);
    let failed = eval(&mut host, "f([1, 2][5] + { 3 })");
    assert!(failed.is_err());
    assert_eq!(host.memory.protected_depth(), 0);
    let deep = eval(&mut host, "[q[0 + nothing]] = [1]");
    assert!(deep.is_err());
    assert_eq!(host.memory.protected_depth(), 0);
}

#[test]
fn collection_in_the_middle_of_a_loop_keeps_what_is_in_use() {
    let mut host = Host::new();
    assert_eq!(show(&mut host, "i := 0; while i < 20000 { i += 1 }; i"), "20000");
    assert!(host.memory.counter() > 100_000);
    assert!(host.memory.len() < host.memory.counter());
    assert_eq!(
        show(&mut host, "a = []; k = 0; while k < 3000 { a = a + [[k, \"item\"]]; k += 1 }; len(a)"),
        "3000"
    );
    assert_eq!(show(&mut host, "a[2999]"), "[2999,item]");
    assert_eq!(show(&mut host, "a[0][0] + a[1500][0]"), "1500");
    eval(&mut host, "collect()").unwrap();
    assert!(host.memory.len() < 10_000);
    assert_eq!(show(&mut host, "a[2999]"), "[2999,item]");
    assert_eq!(show(&mut host, "i"), "20000");
}

#[test]
fn collection_in_the_middle_of_calls_keeps_the_callers() {
    let mut host = Host::new();
    let program = "count = |n| { if n == 0 { 0 } else { 1 + count(n - 1) } }; \
                   total = 0; j = 0; while j < 200 { total += count(60); j += 1 }; total";
    assert_eq!(show(&mut host, program), "12000");
    assert!(host.memory.counter() > 100_000);
    assert!(host.scopes.len() < host.scopes.counter());
    eval(&mut host, "collect()").unwrap();
    assert_eq!(host.scopes.len(), 1);
    assert_eq!(show(&mut host, "count(3) + total"), "12003");
}

#[test]
fn builtins_are_registered_in_the_root_frame() {
    let mut host = Host::new();
    let names = ["sin", "cos", "tan", "print", "println", "memtest", "collect", "input", "len"];
    assert_eq!(host.memory.len(), names.len());
    for (i, name) in names.iter().enumerate() {
        assert_eq!(host.scopes.get_var_id(name.to_string(), 0), Some(i + 1));
        assert!(matches!(host.memory.get(i + 1), Value::Builtin(n) if n == name));
        assert_eq!(show(&mut host, name), format!("<builtin: {}>", name));
    }
    assert_eq!(message_of(eval(&mut host, "nothing()")), "Unknown variable nothing");
    assert_eq!(message_of(eval(&mut host, "sin = 1; sin(1)")), "Invalid base for call");
}

#[test]
fn values_that_dangle_are_never_stored() {
    let mut host = Host::new();
    let cells = host.memory.len();
    let dangling = ASTNode::Constant { value: Value::Array(vec![7777]) };
    let bound = op(var("a"), Token::Assign, dangling);
    assert_eq!(message_of(host.run(&bound)), "Value is gone");
    assert_eq!(host.memory.len(), cells);
    assert_eq!(host.memory.protected_depth(), 0);
    assert_eq!(message_of(eval(&mut host, "a")), "Unknown variable a");
    let stray = ASTNode::Constant {
        value: Value::Function {
            arg_names: vec![],
            code: Box::new(num(1.0)),
            scope_id: 4242,
        },
    };
    assert_eq!(message_of(host.run(&call(stray, vec![]))), "Value is gone");
    assert_eq!(host.memory.len(), cells);
    let sound = ASTNode::Constant { value: Value::Array(vec![1, 2]) };
    assert_eq!(show_node(&mut host, &op(var("b"), Token::Assign, sound)), "[<builtin: sin>,<builtin: cos>]");
}

use bluebat::errors::BaseError;
use bluebat::interpreter::Memory;
use bluebat::value::{Computed, NumberFn, NumberOp, Piece, Value};

fn number(x: f64) -> Value {
    Value::Number(x.to_bits())
}

fn text(s: &str) -> Value {
    Value::String(s.to_string())
}

fn render(pieces: &[Piece]) -> String {
    let mut out = String::new();
    for piece in pieces {
        match piece {
            Piece::Text(s) => out.push_str(s),
            Piece::Number(bits) => out.push_str(&f64::from_bits(*bits).to_string()),
        }
    }
    out
}

fn message<T: std::fmt::Debug>(result: Result<T, BaseError>) -> String {
    match result {
        Err(BaseError::InterpreterError(message)) => message,
        other => panic!("not an evaluation error: {:?}", other),
    }
}

#[test]
fn arithmetic_on_numbers_is_asked_of_the_host() {
    let a = number(1.5);
    let b = number(2.0);
    let cases = [
        (a.plus(&b), NumberOp::Add),
        (a.minus(&b), NumberOp::Sub),
        (a.mult(&b), NumberOp::Mul),
        (a.div(&b), NumberOp::Div),
        (a.rem(&b), NumberOp::Rem),
        (a.pow(&b), NumberOp::Pow),
    ];
    for (result, expected) in cases {
        match result {
            Ok(Computed::Binary { op, left, right }) => {
                assert_eq!(op, expected);
                assert_eq!(left, 1.5f64.to_bits());
                assert_eq!(right, 2.0f64.to_bits());
            }
            other => panic!("unexpected {:?}", other),
        }
    }
    let functions = [(a.sin(), NumberFn::Sin), (a.cos(), NumberFn::Cos), (a.tan(), NumberFn::Tan)];
    for (result, expected) in functions {
        match result {
            Ok(Computed::Unary { function, argument }) => {
                assert_eq!(function, expected);
                assert_eq!(argument, 1.5f64.to_bits());
            }
            other => panic!("unexpected {:?}", other),
        }
    }
}

#[test]
fn plus_concatenates_strings_and_arrays() {
    match text("ab").plus(&text("cd")) {
        Ok(Computed::Value(Value::String(s))) => assert_eq!(s, "abcd"),
        other => panic!("unexpected {:?}", other),
    }
    match Value::Array(vec![3, 1]).plus(&Value::Array(vec![2])) {
        Ok(Computed::Value(Value::Array(handles))) => assert_eq!(handles, vec![3, 1, 2]),
        other => panic!("unexpected {:?}", other),
    }
    assert_eq!(message(text("a").plus(&number(1.0))), "Operation '+' not defined for types");
    assert_eq!(message(Value::Null.minus(&number(1.0))), "Operation '-' not defined for types");
    assert_eq!(message(Value::Null.div(&number(1.0))), "Operation '/' not defined for types");
    assert_eq!(message(Value::Null.rem(&number(1.0))), "Operation '%' not defined for types");
    assert_eq!(message(Value::Null.pow(&number(1.0))), "Operation '^' not defined for types");
    assert_eq!(message(Value::Null.sin()), "Expected number for argument");
}

#[test]
fn mult_repeats_strings() {
    match text("xy").mult(&number(3.7)) {
        Ok(Computed::Value(Value::String(s))) => assert_eq!(s, "xyxyxy"),
        other => panic!("unexpected {:?}", other),
    }
    match text("").mult(&number(1e18)) {
        Ok(Computed::Value(Value::String(s))) => assert_eq!(s, ""),
        other => panic!("unexpected {:?}", other),
    }
    match text("xy").mult(&number(f64::NAN)) {
        Ok(Computed::Value(Value::String(s))) => assert_eq!(s, ""),
        other => panic!("unexpected {:?}", other),
    }
    assert_eq!(message(number(2.0).mult(&text("a"))), "Operation '*' not defined for types");
}

#[test]
fn unary_operations() {
    assert!(matches!(number(2.0).neg(), Ok(Value::Number(bits)) if f64::from_bits(bits) == -2.0));
    assert!(matches!(number(2.0).give(), Ok(Value::Number(bits)) if f64::from_bits(bits) == 2.0));
    assert!(matches!(Value::Bool(true).not(), Ok(Value::Bool(false))));
    assert_eq!(message(text("a").neg()), "Unary operation '-' not defined for type");
    assert_eq!(message(text("a").give()), "Unary operation '+' not defined for type");
    assert_eq!(message(number(1.0).not()), "Unary operation '!' not defined for type");
    assert!(matches!(Value::Bool(true).to_bool(), Ok(true)));
    assert_eq!(message(Value::Null.to_bool()), "Cannot convert to boolean");
}

#[test]
fn comparisons() {
    let one = number(1.0);
    let two = number(2.0);
    assert!(matches!(one.sm(&two), Ok(Value::Bool(true))));
    assert!(matches!(one.smeq(&one), Ok(Value::Bool(true))));
    assert!(matches!(one.gr(&two), Ok(Value::Bool(false))));
    assert!(matches!(two.greq(&one), Ok(Value::Bool(true))));
    assert!(matches!(number(f64::NAN).smeq(&number(f64::NAN)), Ok(Value::Bool(false))));
    assert_eq!(message(one.gr(&text("a"))), "Operation '>' not defined for types");
    assert_eq!(message(one.greq(&text("a"))), "Operation '>=' not defined for types");
    assert_eq!(message(one.sm(&text("a"))), "Operation '<' not defined for types");
    assert_eq!(message(one.smeq(&text("a"))), "Operation '<=' not defined for types");
}

#[test]
fn lengths() {
    assert!(matches!(Value::Array(vec![1, 2, 3]).len(), Ok(Value::Number(bits)) if f64::from_bits(bits) == 3.0));
    assert!(matches!(text("héé").len(), Ok(Value::Number(bits)) if f64::from_bits(bits) == 3.0));
    assert!(matches!(text("").len(), Ok(Value::Number(bits)) if f64::from_bits(bits) == 0.0));
    assert_eq!(message(Value::Null.len()), "Cannot get length of type");
}

#[test]
fn equality_is_structural_with_identity_as_a_shortcut() {
    let mut memory = Memory::new();
    let a = memory.add(number(1.0));
    let b = memory.add(number(1.0));
    let c = memory.add(number(2.0));
    let nan = memory.add(number(f64::NAN));
    assert!(matches!(Value::Array(vec![a]).eq(&Value::Array(vec![b]), &memory), Ok(Value::Bool(true))));
    assert!(matches!(Value::Array(vec![a]).eq(&Value::Array(vec![c]), &memory), Ok(Value::Bool(false))));
    assert!(matches!(Value::Array(vec![a]).neq(&Value::Array(vec![c]), &memory), Ok(Value::Bool(true))));
    assert!(matches!(Value::Array(vec![nan]).eq(&Value::Array(vec![nan]), &memory), Ok(Value::Bool(true))));
    assert!(matches!(number(f64::NAN).eq(&number(f64::NAN), &memory), Ok(Value::Bool(false))));
    assert!(matches!(Value::Array(vec![77]).eq(&Value::Array(vec![78]), &memory), Ok(Value::Bool(false))));
    assert!(matches!(Value::Array(vec![77]).eq(&Value::Array(vec![77]), &memory), Ok(Value::Bool(true))));
    assert!(matches!(Value::Null.eq(&Value::Null, &memory), Ok(Value::Bool(true))));
    assert!(matches!(Value::Null.neq(&Value::Null, &memory), Ok(Value::Bool(false))));
    assert!(matches!(text("a").eq(&text("a"), &memory), Ok(Value::Bool(true))));
    assert!(matches!(Value::TypeName("a".to_string()).eq(&Value::TypeName("b".to_string()), &memory), Ok(Value::Bool(false))));
    assert_eq!(message(Value::Null.eq(&number(1.0), &memory)), "Operation '==' not defined for types");
    assert_eq!(message(Value::Builtin("len".to_string()).neq(&Value::Builtin("len".to_string()), &memory)), "Operation '!=' not defined for types");
    assert!(Value::Array(vec![a, c]).internal_equal(&Value::Array(vec![b, c]), &memory));
}

#[test]
fn print_forms() {
    let mut memory = Memory::new();
    let one = memory.add(number(1.0));
    let half = memory.add(number(0.5));
    let inner = memory.add(Value::Array(vec![half]));
    let mut visited = Vec::new();
    assert_eq!(render(&Value::Null.to_str(&memory, &mut visited)), "Null");
    assert_eq!(render(&Value::Bool(true).to_str(&memory, &mut visited)), "True");
    assert_eq!(render(&Value::Bool(false).to_str(&memory, &mut visited)), "False");
    assert_eq!(render(&text("a b").to_str(&memory, &mut visited)), "a b");
    assert_eq!(render(&number(-2.5).to_str(&memory, &mut visited)), "-2.5");
    assert_eq!(render(&Value::TypeName("number".to_string()).to_str(&memory, &mut visited)), "#number");
    assert_eq!(render(&Value::Builtin("len".to_string()).to_str(&memory, &mut visited)), "<builtin: len>");
    assert_eq!(render(&Value::Array(vec![]).to_str(&memory, &mut visited)), "[]");
    assert_eq!(render(&Value::Array(vec![one, inner, one]).to_str(&memory, &mut visited)), "[1,[0.5],1]");
    assert_eq!(render(&Value::Array(vec![one, 99]).to_str(&memory, &mut visited)), "[1,Null]");
    assert!(visited.is_empty());
    memory.set(Value::Array(vec![inner]), inner);
    assert_eq!(render(&Value::Array(vec![inner]).to_str(&memory, &mut visited)), "[[...]]");
    assert_eq!(render(&Value::Array(vec![one, inner]).to_str(&memory, &mut visited)), "[1,[[...]]]");
}

#[test]
fn casts() {
    let memory = Memory::new();
    let number_type = Value::TypeName("number".to_string());
    let string_type = Value::TypeName("string".to_string());
    assert!(matches!(text("3.5").cast_to(&number_type, &memory), Ok(Computed::Parse { text }) if text == "3.5"));
    assert!(matches!(text("3.5").cast_to(&string_type, &memory), Ok(Computed::Value(Value::String(s))) if s == "3.5"));
    match number(3.5).cast_to(&string_type, &memory) {
        Ok(Computed::Render { pieces }) => assert_eq!(render(&pieces), "3.5"),
        other => panic!("unexpected {:?}", other),
    }
    assert_eq!(message(text("x").cast_to(&Value::TypeName("bool".to_string()), &memory)), "Couldn't convert");
    assert_eq!(message(number(1.0).cast_to(&number_type, &memory)), "Couldn't convert");
    assert_eq!(message(number(1.0).cast_to(&number(2.0), &memory)), "Casting not defined for types");
}

#[test]
fn clones_are_deep() {
    let function = Value::Function {
        arg_names: vec!["a".to_string()],
        code: Box::new(bluebat::parser::ASTNode::Var { name: "a".to_string() }),
        scope_id: 3,
    };
    let copy = function.clone();
    assert_eq!(format!("{:?}", copy), format!("{:?}", function));
    let error = BaseError::InterpreterError("x".to_string());
    assert_eq!(error.clone().message(), "x");
    assert_eq!(BaseError::ParseError("y".to_string()).message(), "y");
}

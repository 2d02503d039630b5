//! The operations that a step applies to values, targets and plans.

use vstd::prelude::*;
use vstd::string::{StrSliceExecFns, StringExecFns};
use crate::errors::{BaseError, ErrorModel, interpreter_error};
use crate::interpreter::collector::test_resolves;
use crate::interpreter::{Memory, ScopeList, ValueResult};
use crate::lexer::Token;
use crate::number::to_index;
use crate::parser::ASTNode;
use crate::value::{
    Computation, Computed, Piece, PieceModel, RegIndex, Value, ValueModel, clone_handles,
    computation_model, pieces_model, result_model, values_model,
};
use super::semantics;
use super::semantics::Applied;
use super::{Source, TargetModel, VarExistence, plan_model, targets_model};

verus! {

/// The model of the outcome of resolving a target.
pub open spec fn target_result_model(res: Result<VarExistence, BaseError>) -> Result<
    TargetModel,
    ErrorModel,
> {
    match res {
        Ok(target) => Ok(target@),
        Err(error) => Err(error@),
    }
}

/// A value as the outcome of an operation that the host need not finish.
pub fn lift(res: ValueResult) -> (out: Computation)
    ensures
        computation_model(out) == semantics::lift(result_model(res)),
{
    match res {
        Ok(value) => Ok(Computed::Value(value)),
        Err(error) => Err(error),
    }
}

/// A unary operator applied to a value.
pub fn unary(op: &Token, value: &Value) -> (res: ValueResult)
    ensures
        result_model(res) == semantics::unary(*op, value@),
{
    match op {
        Token::Plus => value.give(),
        Token::Minus => value.neg(),
        Token::Not => value.not(),
        _ => Err(interpreter_error("Non '+','-','!' unary operation")),
    }
}

/// A binary operator applied to two values.
pub fn binary(op: &Token, a: &Value, b: &Value, memory: &Memory) -> (res: Computation)
    ensures
        computation_model(res) == semantics::binary(*op, a@, b@, memory@.cells),
{
    match op {
        Token::Plus => a.plus(b),
        Token::Minus => a.minus(b),
        Token::Mult => a.mult(b),
        Token::Div => a.div(b),
        Token::Mod => a.rem(b),
        Token::Pow => a.pow(b),
        Token::Greater => lift(a.gr(b)),
        Token::GreaterEq => lift(a.greq(b)),
        Token::Lesser => lift(a.sm(b)),
        Token::LesserEq => lift(a.smeq(b)),
        Token::Eq => lift(a.eq(b, memory)),
        Token::NotEq => lift(a.neq(b, memory)),
        Token::As => a.cast_to(b, memory),
        _ => Err(interpreter_error("Unknown operation")),
    }
}

/// The operator of a compound assignment applied to the current value of
/// the target and to the right side.
pub fn compound(op: &Token, current: &Value, right: &Value) -> (res: Computation)
    ensures
        computation_model(res) == semantics::compound(*op, current@, right@),
{
    match op {
        Token::PlusEq => current.plus(right),
        Token::MinusEq => current.minus(right),
        Token::MultEq => current.mult(right),
        Token::DivEq => current.div(right),
        Token::ModEq => current.rem(right),
        Token::PowEq => current.pow(right),
        _ => Err(interpreter_error("Unknown operation")),
    }
}

/// The string that holds the character at position `i` of `s` alone.
pub fn char_at(s: &String, i: usize) -> (res: String)
    requires
        i < s@.len(),
        i < usize::MAX,
    ensures
        res@ == seq![s@[i as int]],
{
    let part = s.as_str().substring_char(i, i + 1);
    assert(part@ =~= seq![s@[i as int]]);
    String::from_str(part)
}

/// The element that a number selects in a container.
pub fn element(container: &Value, number: u64, memory: &Memory) -> (res: ValueResult)
    ensures
        result_model(res) == semantics::element(container@, number, memory@.cells),
{
    match container {
        Value::Array(handles) => {
            match to_index(number, handles.len()) {
                Some(i) => {
                    match memory.lookup(handles[i]) {
                        Some(value) => Ok(value.clone()),
                        None => Err(interpreter_error("Value is gone")),
                    }
                },
                None => Err(interpreter_error("Index out of bounds")),
            }
        },
        Value::String(s) => {
            match to_index(number, s.as_str().unicode_len()) {
                Some(i) => Ok(Value::String(char_at(s, i))),
                None => Err(interpreter_error("Index out of bounds")),
            }
        },
        _ => Err(interpreter_error("Type cannot be indexed")),
    }
}

/// The target that a number selects in a container.
pub fn element_target(container: &Value, number: u64) -> (res: Result<VarExistence, BaseError>)
    ensures
        target_result_model(res) == semantics::element_target(container@, number),
{
    match container {
        Value::Array(handles) => {
            match to_index(number, handles.len()) {
                Some(i) => Ok(VarExistence::Id(handles[i])),
                None => Err(interpreter_error("Index out of bounds")),
            }
        },
        Value::String(s) => {
            match to_index(number, s.as_str().unicode_len()) {
                Some(i) => Ok(
                    VarExistence::Deferred {
                        value: Value::String(char_at(s, i)),
                        message: String::from_str("cannot assign to string index"),
                    },
                ),
                None => Err(interpreter_error("Index out of bounds")),
            }
        },
        _ => Err(interpreter_error("Type cannot be indexed")),
    }
}

/// The value that a target holds, for indexing into it.
pub fn target_value(target: VarExistence, memory: &Memory) -> (res: ValueResult)
    ensures
        result_model(res) == semantics::target_value(target@, memory@.cells),
{
    match target {
        VarExistence::Name(name) => Err(super::step::unknown_variable(&name)),
        VarExistence::Id(id) => {
            match memory.lookup(id) {
                Some(value) => Ok(value.clone()),
                None => Err(interpreter_error("Value is gone")),
            }
        },
        VarExistence::Deferred { value, message } => Ok(value),
    }
}

/// Writes `value` to `target` from the frame `scope`; returns the error that
/// stopped the write, if one did.
pub fn store(
    scopes: &mut ScopeList,
    memory: &mut Memory,
    target: VarExistence,
    value: &Value,
    scope: RegIndex,
) -> (res: Option<BaseError>)
    ensures
        semantics::store(old(scopes)@, old(memory)@, target@, value@, scope) == (Applied {
            scopes: final(scopes)@,
            memory: final(memory)@,
            error: match res {
                Some(error) => Some(error@),
                None => None,
            },
        }),
{
    match target {
        VarExistence::Deferred { value: _, message } => {
            return Some(BaseError::InterpreterError(message));
        },
        _ => {},
    }
    if !test_resolves(value, &*memory, &*scopes) {
        return Some(interpreter_error("Value is gone"));
    }
    match target {
        VarExistence::Id(id) => {
            if memory.contains(id) {
                memory.set(value.clone(), id);
                None
            } else {
                Some(interpreter_error("Value is gone"))
            }
        },
        VarExistence::Name(name) => {
            if memory.is_full() {
                Some(interpreter_error("Out of memory"))
            } else if scopes.set_var(name, scope, memory, value, true) {
                None
            } else {
                Some(interpreter_error("Cannot assign"))
            }
        },
        VarExistence::Deferred { value: _, message } => Some(BaseError::InterpreterError(message)),
    }
}

/// The value that a pattern receives from its source.
pub fn source_value(source: &Source, memory: &Memory) -> (res: Option<Value>)
    ensures
        match res {
            Some(value) => semantics::source_value(source@, memory@.cells) == Some(value@),
            None => semantics::source_value(source@, memory@.cells) is None,
        },
{
    match source {
        Source::Single(h) => {
            match memory.lookup(*h) {
                Some(value) => Some(value.clone()),
                None => None,
            }
        },
        Source::Spread(handles) => Some(Value::Array(clone_handles(handles))),
    }
}

/// Performs the writes of a destructuring assignment in order, up to the
/// first that fails; returns the error that stopped them, if one did.
pub fn apply_all(
    scopes: &mut ScopeList,
    memory: &mut Memory,
    plan: &Vec<(ASTNode, Source)>,
    targets: Vec<VarExistence>,
    scope: RegIndex,
) -> (res: Option<BaseError>)
    ensures
        semantics::apply_all(
            old(scopes)@,
            old(memory)@,
            plan_model(plan@),
            targets_model(targets@),
            scope,
            0,
        ) == (Applied {
            scopes: final(scopes)@,
            memory: final(memory)@,
            error: match res {
                Some(error) => Some(error@),
                None => None,
            },
        }),
{
    let ghost goal = semantics::apply_all(
        scopes@,
        memory@,
        plan_model(plan@),
        targets_model(targets@),
        scope,
        0,
    );
    let ghost all = targets_model(targets@);
    let mut rest = targets;
    let mut i: usize = 0;
    proof {
        assert(rest@.len() == all.len());
    }
    // The targets are consumed from the back of a reversed list.
    let mut reversed: Vec<VarExistence> = Vec::new();
    while rest.len() > 0
        invariant
            reversed@.len() + rest@.len() == all.len(),
            forall|k: int| 0 <= k < rest@.len() ==> rest@[k]@ == all[k],
            forall|k: int|
                0 <= k < reversed@.len() ==> reversed@[k]@ == all[all.len() - 1 - k],
        decreases rest.len(),
    {
        let last = rest.pop().unwrap();
        reversed.push(last);
    }
    while i < plan.len() && reversed.len() > 0
        invariant
            i + reversed@.len() == all.len(),
            forall|k: int|
                0 <= k < reversed@.len() ==> reversed@[k]@ == all[all.len() - 1 - k],
            semantics::apply_all(scopes@, memory@, plan_model(plan@), all, scope, i as int)
                == goal,
            goal == semantics::apply_all(
                old(scopes)@,
                old(memory)@,
                plan_model(plan@),
                targets_model(targets@),
                scope,
                0,
            ),
            all == targets_model(targets@),
        decreases reversed.len(),
    {
        let target = reversed.pop().unwrap();
        assert(target@ == all[i as int]);
        assert(plan_model(plan@)[i as int].1 == plan@[i as int].1@);
        assert(i < plan_model(plan@).len() && i < all.len());
        match source_value(&plan[i].1, &*memory) {
            None => {
                return Some(interpreter_error("Value is gone"));
            },
            Some(value) => {
                match store(scopes, memory, target, &value, scope) {
                    Some(error) => {
                        return Some(error);
                    },
                    None => {},
                }
            },
        }
        i = i + 1;
    }
    None
}

/// Binds the parameters to the values of the arguments, each local to the
/// frame `run`; returns the error that stopped the binding, if one did.
pub fn bind_args(
    scopes: &mut ScopeList,
    memory: &mut Memory,
    names: &Vec<String>,
    values: &Vec<Value>,
    run: RegIndex,
) -> (res: Option<BaseError>)
    ensures
        semantics::bind_args(
            old(scopes)@,
            old(memory)@,
            crate::value::names_model(names@),
            values_model(values@),
            run,
            0,
        ) == (Applied {
            scopes: final(scopes)@,
            memory: final(memory)@,
            error: match res {
                Some(error) => Some(error@),
                None => None,
            },
        }),
{
    let ghost goal = semantics::bind_args(
        scopes@,
        memory@,
        crate::value::names_model(names@),
        values_model(values@),
        run,
        0,
    );
    let mut i: usize = 0;
    while i < names.len() && i < values.len()
        invariant
            semantics::bind_args(
                scopes@,
                memory@,
                crate::value::names_model(names@),
                values_model(values@),
                run,
                i as int,
            ) == goal,
            goal == semantics::bind_args(
                old(scopes)@,
                old(memory)@,
                crate::value::names_model(names@),
                values_model(values@),
                run,
                0,
            ),
        decreases names.len() - i,
    {
        assert(crate::value::names_model(names@)[i as int] == names@[i as int]@);
        assert(values_model(values@)[i as int] == values@[i as int]@);
        if memory.is_full() {
            return Some(interpreter_error("Out of memory"));
        }
        if !test_resolves(&values[i], &*memory, &*scopes) {
            return Some(interpreter_error("Value is gone"));
        }
        if !scopes.set_var_local(names[i].clone(), run, memory, &values[i]) {
            return Some(interpreter_error("Cannot assign"));
        }
        i = i + 1;
    }
    None
}

/// The print forms of the values, one after the other.
pub fn print_all(values: &Vec<Value>, memory: &Memory) -> (res: Vec<Piece>)
    ensures
        pieces_model(res@) == semantics::print_all(values_model(values@), memory@.cells, 0),
{
    let mut out: Vec<Piece> = Vec::new();
    let mut i: usize = 0;
    assert(pieces_model(out@) =~= Seq::<PieceModel>::empty());
    while i < values.len()
        invariant
            i <= values.len(),
            pieces_model(out@) + semantics::print_all(
                values_model(values@),
                memory@.cells,
                i as int,
            ) == semantics::print_all(values_model(values@), memory@.cells, 0),
        decreases values.len() - i,
    {
        let mut visited: Vec<Value> = Vec::new();
        assert(values_model(visited@) =~= Seq::<ValueModel>::empty());
        let mut pieces = values[i].to_str(memory, &mut visited);
        let ghost before = pieces_model(out@);
        let ghost added = pieces_model(pieces@);
        let ghost rest = semantics::print_all(values_model(values@), memory@.cells, i + 1);
        let mut k: usize = 0;
        while k < pieces.len()
            invariant
                k <= pieces.len(),
                pieces_model(pieces@) == added,
                pieces_model(out@) == before + added.take(k as int),
            decreases pieces.len() - k,
        {
            assert(added[k as int] == pieces@[k as int]@);
            let ghost prior = out@;
            let copy = pieces[k].clone();
            out.push(copy);
            assert(pieces_model(prior).len() == prior.len());
            assert(added.len() == pieces@.len());
            assert(added.take(k as int).len() == k);
            assert(added.take(k + 1).len() == k + 1);
            assert(prior.len() == before.len() + k);
            assert forall|j: int| 0 <= j < out@.len() implies pieces_model(out@)[j] == (before
                + added.take(k + 1))[j] by {
                if j < prior.len() {
                    assert(pieces_model(prior)[j] == (before + added.take(k as int))[j]);
                    assert(out@[j] == prior[j]);
                } else {
                    assert(out@[j] == copy);
                }
            }
            assert(pieces_model(out@) =~= before + added.take(k + 1));
            k = k + 1;
        }
        assert(added.take(added.len() as int) =~= added);
        assert(before + added + rest =~= before + (added + rest));
        i = i + 1;
    }
    assert(semantics::print_all(values_model(values@), memory@.cells, values@.len() as int)
        =~= Seq::<PieceModel>::empty());
    assert(pieces_model(out@) + Seq::<PieceModel>::empty() =~= pieces_model(out@));
    out
}

/// A line without the line end.
pub fn strip_line_end(line: &String) -> (res: String)
    ensures
        res@ == semantics::strip_line_end(line@),
{
    let text = line.as_str();
    let mut end: usize = text.unicode_len();
    let mut done = false;
    assert(text@.take(end as int) =~= line@);
    while end > 0 && !done
        invariant
            end <= text@.len(),
            text@ == line@,
            semantics::strip_line_end(text@.take(end as int)) == semantics::strip_line_end(
                line@,
            ),
            done ==> end > 0 && text@[end - 1] != '\n' && text@[end - 1] != '\r',
        decreases end + (if done {
            0int
        } else {
            1int
        }),
    {
        let c = text.get_char(end - 1);
        assert(text@.take(end as int).last() == c);
        if c == '\n' || c == '\r' {
            assert(text@.take(end as int).drop_last() =~= text@.take(end - 1));
            end = end - 1;
        } else {
            done = true;
        }
    }
    assert(semantics::strip_line_end(text@.take(end as int)) == text@.take(end as int)) by {
        if end > 0 {
            assert(text@.take(end as int).last() == text@[end - 1]);
        }
    }
    let part = text.substring_char(0, end);
    assert(part@ =~= text@.take(end as int));
    String::from_str(part)
}

fn digit_text(d: usize) -> (res: &'static str)
    requires
        d < 10,
    ensures
        res@ == seq![semantics::digit(d as nat)],
{
    proof {
        reveal_strlit("0");
        reveal_strlit("1");
        reveal_strlit("2");
        reveal_strlit("3");
        reveal_strlit("4");
        reveal_strlit("5");
        reveal_strlit("6");
        reveal_strlit("7");
        reveal_strlit("8");
        reveal_strlit("9");
    }
    let res = if d == 0 {
        "0"
    } else if d == 1 {
        "1"
    } else if d == 2 {
        "2"
    } else if d == 3 {
        "3"
    } else if d == 4 {
        "4"
    } else if d == 5 {
        "5"
    } else if d == 6 {
        "6"
    } else if d == 7 {
        "7"
    } else if d == 8 {
        "8"
    } else {
        "9"
    };
    assert(res@ =~= seq![semantics::digit(d as nat)]);
    res
}

/// The decimal numeral of `n`.
pub fn decimal(n: usize) -> (res: String)
    ensures
        res@ == semantics::decimal(n as nat),
    decreases n,
{
    if n < 10 {
        String::from_str(digit_text(n))
    } else {
        let mut out = decimal(n / 10);
        out.append(digit_text(n % 10));
        out
    }
}

} // verus!

//! Calls of builtins and functions, and the completion of operations.

use vstd::prelude::*;
use vstd::string::StringExecFns;
use crate::errors::{BaseError, failure, interpreter_error};
use crate::interpreter::collector::test_resolves;
use crate::interpreter::{Memory, ScopeList, derive_scope};
use crate::value::{
    Computation, Computed, RegIndex, Value, computation_model, is_text, names_model, values_model,
};
use super::operations::{bind_args, decimal, lift, print_all};
use super::semantics;
use super::step::{can_derive, outcome};
use super::{Awaiting, Execution, Frame, Request};

verus! {

/// The model of an optional error as an optional message.
pub open spec fn message_model(error: Option<BaseError>) -> Option<Seq<char>> {
    match error {
        Some(e) => Some(e.spec_message()),
        None => None,
    }
}

/// What is wrong with calling the builtin `name` with `count` arguments.
pub fn arity_error(name: &String, count: usize) -> (res: Option<BaseError>)
    ensures
        message_model(res) == semantics::arity_error(name@, count as nat),
        res matches Some(e) ==> e@ == failure(e.spec_message()),
{
    if is_text(name, "sin") || is_text(name, "cos") || is_text(name, "tan") || is_text(name, "len")
        || is_text(name, "input") {
        if count == 1 {
            None
        } else {
            Some(interpreter_error("Expected 1 argument"))
        }
    } else if is_text(name, "print") || is_text(name, "println") {
        None
    } else if is_text(name, "collect") || is_text(name, "memtest") {
        if count == 0 {
            None
        } else {
            Some(interpreter_error("Expected 0 arguments"))
        }
    } else {
        Some(interpreter_error("Unknown builtin"))
    }
}

fn expected_arguments(n: usize) -> (res: BaseError)
    ensures
        res@ == failure("Expected "@ + semantics::decimal(n as nat) + " argument(s)"@),
{
    let mut message = String::from_str("Expected ");
    let digits = decimal(n);
    message.append(digits.as_str());
    message.append(" argument(s)");
    BaseError::InterpreterError(message)
}

/// What is wrong with calling `callee` with `count` arguments.
pub fn call_error(callee: &Value, count: usize) -> (res: Option<BaseError>)
    ensures
        message_model(res) == semantics::call_error(callee@, count as nat),
        res matches Some(e) ==> e@ == failure(e.spec_message()),
{
    match callee {
        Value::Builtin(name) => arity_error(name, count),
        Value::Function { arg_names, .. } => {
            assert(names_model(arg_names@).len() == arg_names@.len());
            if arg_names.len() != count {
                Some(expected_arguments(arg_names.len()))
            } else {
                None
            }
        },
        _ => Some(interpreter_error("Invalid base for call")),
    }
}

impl Execution {
    /// Leaves a node with the outcome of an operation.
    pub(super) fn complete(
        &mut self,
        memory: &mut Memory,
        scopes: &ScopeList,
        computation: Computation,
        store: Option<RegIndex>,
    ) -> (request: Request)
        ensures
            outcome(*final(self), *final(memory), *scopes, request) == semantics::complete(
                old(self)@.stack,
                old(memory)@,
                scopes@,
                computation_model(computation),
                store,
            ),
    {
        match computation {
            Err(error) => self.abort(memory, scopes, error),
            Ok(Computed::Value(value)) => {
                match store {
                    Some(id) => {
                        if memory.contains(id) && test_resolves(&value, &*memory, scopes) {
                            memory.set(value.clone(), id);
                            self.finish(memory, scopes, value)
                        } else {
                            self.fail(memory, scopes, "Value is gone")
                        }
                    },
                    None => self.finish(memory, scopes, value),
                }
            },
            Ok(Computed::Binary { op, left, right }) => {
                memory.pop_protected();
                self.asking(Awaiting::Number { store }, Request::Binary { op, left, right })
            },
            Ok(Computed::Unary { function, argument }) => {
                memory.pop_protected();
                self.asking(Awaiting::Number { store }, Request::Unary { function, argument })
            },
            Ok(Computed::Parse { text }) => {
                memory.pop_protected();
                self.asking(Awaiting::Parsed, Request::Parse { text })
            },
            Ok(Computed::Render { pieces }) => {
                memory.pop_protected();
                self.asking(Awaiting::Text, Request::Render { pieces })
            },
        }
    }

    /// Calls the builtin `name` on the values of its arguments.
    pub(super) fn call_builtin(
        &mut self,
        memory: &mut Memory,
        scopes: &mut ScopeList,
        name: &String,
        values: Vec<Value>,
        scope: RegIndex,
    ) -> (request: Request)
        ensures
            outcome(*final(self), *final(memory), *final(scopes), request)
                == semantics::call_builtin(
                old(self)@.stack,
                old(memory)@,
                old(scopes)@,
                name@,
                values_model(values@),
                scope,
            ),
    {
        assert(values_model(values@).len() == values@.len());
        match arity_error(name, values.len()) {
            Some(error) => {
                return self.abort(memory, &*scopes, error);
            },
            None => {},
        }
        if is_text(name, "sin") {
            assert(values_model(values@)[0] == values@[0]@);
            let computation = values[0].sin();
            self.complete(memory, &*scopes, computation, None)
        } else if is_text(name, "cos") {
            assert(values_model(values@)[0] == values@[0]@);
            let computation = values[0].cos();
            self.complete(memory, &*scopes, computation, None)
        } else if is_text(name, "tan") {
            assert(values_model(values@)[0] == values@[0]@);
            let computation = values[0].tan();
            self.complete(memory, &*scopes, computation, None)
        } else if is_text(name, "len") {
            assert(values_model(values@)[0] == values@[0]@);
            let computation = lift(values[0].len());
            self.complete(memory, &*scopes, computation, None)
        } else if is_text(name, "input") {
            assert(values_model(values@)[0] == values@[0]@);
            match &values[0] {
                Value::String(prompt) => {
                    let text = prompt.clone();
                    memory.pop_protected();
                    self.asking(Awaiting::Line, Request::Input { prompt: text })
                },
                _ => self.fail(memory, &*scopes, "Expected string for argument"),
            }
        } else if is_text(name, "print") {
            let pieces = print_all(&values, &*memory);
            memory.pop_protected();
            self.asking(Awaiting::Done, Request::Print { pieces, newline: false })
        } else if is_text(name, "println") {
            let pieces = print_all(&values, &*memory);
            memory.pop_protected();
            self.asking(Awaiting::Done, Request::Print { pieces, newline: true })
        } else if is_text(name, "collect") {
            memory.collect(scopes, scope);
            self.finish(memory, &*scopes, Value::Null)
        } else {
            memory.pop_protected();
            self.asking(Awaiting::Done, Request::Dump)
        }
    }

    /// Calls `callee` on the values of its arguments.
    pub(super) fn call(
        &mut self,
        memory: &mut Memory,
        scopes: &mut ScopeList,
        callee: Value,
        values: Vec<Value>,
        scope: RegIndex,
    ) -> (request: Request)
        ensures
            outcome(*final(self), *final(memory), *final(scopes), request) == semantics::call(
                old(self)@.stack,
                old(memory)@,
                old(scopes)@,
                callee@,
                values_model(values@),
                scope,
            ),
    {
        assert(values_model(values@).len() == values@.len());
        match callee {
            Value::Builtin(name) => self.call_builtin(memory, scopes, &name, values, scope),
            Value::Function { arg_names, code, scope_id } => {
                assert(names_model(arg_names@).len() == arg_names@.len());
                if arg_names.len() != values.len() {
                    self.abort(memory, &*scopes, expected_arguments(arg_names.len()))
                } else if !can_derive(&*scopes, scope_id, scope) {
                    self.fail(memory, &*scopes, "Cannot derive scope")
                } else {
                    let run = derive_scope(scope_id, scope, scopes);
                    match bind_args(scopes, memory, &arg_names, &values, run) {
                        None => {
                            self.push(Frame::Pass { protect: false });
                            self.evaluating(*code, run)
                        },
                        Some(error) => self.abort(memory, &*scopes, error),
                    }
                }
            },
            _ => self.fail(memory, &*scopes, "Invalid base for call"),
        }
    }
}

} // verus!

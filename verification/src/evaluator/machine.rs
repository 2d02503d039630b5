//! The evaluator as its users see it: start, step, run.

use vstd::prelude::*;
use vstd::string::StringExecFns;
use crate::errors::interpreter_error;
use crate::interpreter::{Memory, ScopeList};
use crate::parser::ASTNode;
use crate::value::{Value, ValueModel, names_model, values_model};
use super::operations::bind_args;
use super::semantics;
use super::semantics::Machine;
use super::step::outcome;
use super::{Control, ControlModel, Execution, Frame, Reply, Request, RequestModel, frames_model};

verus! {

/// The whole state that a step works on, put together from its parts.
pub open spec fn machine(execution: Execution, memory: Memory, scopes: ScopeList) -> Machine {
    Machine {
        control: execution@.control,
        stack: execution@.stack,
        memory: memory@,
        scopes: scopes@,
    }
}

fn owns_protected(frame: &Frame) -> (res: bool)
    ensures
        res == semantics::owns_protected(frame@),
{
    match frame {
        Frame::IndexIdx { lvalue, .. } => !*lvalue,
        Frame::ResolveBase { .. } => false,
        _ => true,
    }
}

/// The names of the functions that the host provides, in the order in which
/// they are registered.
pub open spec fn builtin_names() -> Seq<Seq<char>> {
    seq![
        "sin"@,
        "cos"@,
        "tan"@,
        "print"@,
        "println"@,
        "memtest"@,
        "collect"@,
        "input"@,
        "len"@,
    ]
}

/// The values that the names of the host's functions are bound to.
pub open spec fn builtin_values() -> Seq<ValueModel> {
    Seq::new(builtin_names().len(), |i: int| ValueModel::Builtin(builtin_names()[i]))
}

/// Binds the name of every function that the host provides in the root
/// frame, each to a fresh cell that holds the builtin of that name. Returns
/// whether all were bound: the root frame is live and the handles suffice.
pub fn register_builtins(scopes: &mut ScopeList, memory: &mut Memory) -> (res: bool)
    ensures
        final(scopes)@ == semantics::bind_args(
            old(scopes)@,
            old(memory)@,
            builtin_names(),
            builtin_values(),
            0,
            0,
        ).scopes,
        final(memory)@ == semantics::bind_args(
            old(scopes)@,
            old(memory)@,
            builtin_names(),
            builtin_values(),
            0,
            0,
        ).memory,
        res == semantics::bind_args(
            old(scopes)@,
            old(memory)@,
            builtin_names(),
            builtin_values(),
            0,
            0,
        ).error is None,
{
    let mut names: Vec<String> = Vec::new();
    names.push(String::from_str("sin"));
    names.push(String::from_str("cos"));
    names.push(String::from_str("tan"));
    names.push(String::from_str("print"));
    names.push(String::from_str("println"));
    names.push(String::from_str("memtest"));
    names.push(String::from_str("collect"));
    names.push(String::from_str("input"));
    names.push(String::from_str("len"));
    assert(names_model(names@) =~= builtin_names());
    let mut values: Vec<Value> = Vec::new();
    let mut i: usize = 0;
    while i < names.len()
        invariant
            i <= names.len(),
            names_model(names@) == builtin_names(),
            values@.len() == i,
            forall|k: int|
                0 <= k < i ==> (#[trigger] values@[k])@ == ValueModel::Builtin(builtin_names()[k]),
        decreases names.len() - i,
    {
        assert(names_model(names@)[i as int] == names@[i as int]@);
        values.push(Value::Builtin(names[i].clone()));
        i = i + 1;
    }
    assert(values_model(values@) =~= builtin_values());
    bind_args(scopes, memory, &names, &values, 0).is_none()
}

/// Starts the evaluation of `node` in the root frame. Protected frames that
/// an earlier evaluation left behind are dropped.
pub fn start_execute(node: &ASTNode, scopes: &mut ScopeList, memory: &mut Memory) -> (execution:
    Execution)
    ensures
        final(scopes)@ == old(scopes)@,
        machine(execution, *final(memory), *final(scopes)) == semantics::start(
            node@,
            old(memory)@,
            old(scopes)@,
        ),
{
    memory.clear_protected();
    let stack: Vec<Frame> = Vec::new();
    assert(frames_model(stack@) =~= Seq::empty());
    Execution { control: Control::Eval { node: node.clone(), scope: 0 }, stack }
}

impl Execution {
    /// Whether nothing is left to do.
    pub fn is_done(&self) -> (res: bool)
        ensures
            res == (self@.control is Done),
    {
        match &self.control {
            Control::Done => true,
            _ => false,
        }
    }

    /// The number of nodes that wait for a result.
    pub fn depth(&self) -> (res: usize)
        ensures
            res == self@.stack.len(),
    {
        self.stack.len()
    }

    fn pop(&mut self) -> (frame: Option<Frame>)
        ensures
            final(self)@.control == old(self)@.control,
            match frame {
                Some(top) => old(self)@.stack.len() > 0 && top@ == old(self)@.stack.last()
                    && final(self)@.stack == old(self)@.stack.drop_last(),
                None => old(self)@.stack.len() == 0 && final(self)@.stack == old(self)@.stack,
            },
    {
        let ghost before = self.stack@;
        let frame = self.stack.pop();
        proof {
            if before.len() > 0 {
                assert(frames_model(before).last() == before.last()@);
                assert(frames_model(self.stack@) =~= frames_model(before).drop_last());
            }
        }
        frame
    }

    fn ending(&mut self, result: Result<crate::value::Value, crate::errors::BaseError>) -> (request:
        Request)
        ensures
            final(self)@.stack == old(self)@.stack,
            final(self)@.control == ControlModel::Done,
            request@ == (RequestModel::Finished {
                result: match result {
                    Ok(value) => Ok(value@),
                    Err(error) => Err(error@),
                },
            }),
    {
        self.control = Control::Done;
        Request::Finished { result }
    }

    /// Takes one step, given the host's answer to the request of the step
    /// before, and returns what this step asks of the host.
    pub fn step(&mut self, memory: &mut Memory, scopes: &mut ScopeList, reply: Reply) -> (request:
        Request)
        ensures
            outcome(*final(self), *final(memory), *final(scopes), request) == semantics::step(
                machine(*old(self), *old(memory), *old(scopes)),
                reply@,
            ),
    {
        proof {
            reveal(semantics::step);
        }
        let mut control = Control::Done;
        core::mem::swap(&mut self.control, &mut control);
        match control {
            Control::Eval { node, scope } => self.eval(memory, scopes, node, scope),
            Control::Resolve { node, scope } => self.resolve(&*memory, &*scopes, node, scope),
            Control::Return { value } => {
                match self.pop() {
                    None => self.ending(Ok(value)),
                    Some(frame) => self.deliver(memory, scopes, frame, value),
                }
            },
            Control::Resolved { target } => {
                match self.pop() {
                    None => self.ending(Err(interpreter_error("Expected a value"))),
                    Some(frame) => self.deliver_target(memory, scopes, frame, target),
                }
            },
            Control::Raise { error } => {
                match self.pop() {
                    None => self.ending(Err(error)),
                    Some(frame) => {
                        if owns_protected(&frame) {
                            memory.pop_protected();
                        }
                        self.throwing(error)
                    },
                }
            },
            Control::Await { kind } => self.resume(memory, &*scopes, kind, reply),
            Control::Done => Request::Idle,
        }
    }

    /// Takes up to `fuel` steps and stops at the first that asks something
    /// of the host or ends the evaluation; returns what that step asks.
    /// `reply` answers the request of the step before the first; a return
    /// of [`Request::Continue`] says that the fuel ran out.
    pub fn run(
        &mut self,
        memory: &mut Memory,
        scopes: &mut ScopeList,
        reply: Reply,
        fuel: usize,
    ) -> (request: Request)
        ensures
            outcome(*final(self), *final(memory), *final(scopes), request) == semantics::run(
                machine(*old(self), *old(memory), *old(scopes)),
                reply@,
                fuel as nat,
            ),
    {
        let ghost goal = semantics::run(machine(*self, *memory, *scopes), reply@, fuel as nat);
        let mut pending = reply;
        let mut left: usize = fuel;
        while left > 0
            invariant
                semantics::run(machine(*self, *memory, *scopes), pending@, left as nat) == goal,
                goal == semantics::run(
                    machine(*old(self), *old(memory), *old(scopes)),
                    reply@,
                    fuel as nat,
                ),
            decreases left,
        {
            let ghost before = machine(*self, *memory, *scopes);
            let mut answer = Reply::Nothing;
            core::mem::swap(&mut pending, &mut answer);
            let request = self.step(memory, scopes, answer);
            assert(outcome(*self, *memory, *scopes, request) == semantics::step(before, answer@));
            match request {
                Request::Continue => {
                    left = left - 1;
                },
                other => {
                    assert(!(other@ is Continue));
                    return other;
                },
            }
        }
        Request::Continue
    }
}

} // verus!

//! The steps that hand a result to the node that waits for it.

use vstd::prelude::*;
use crate::errors::BaseError;
use crate::interpreter::collector::{resolves, test_resolves};
use crate::interpreter::{Memory, ScopeList, derive_scope};
use crate::lexer::Token;
use crate::parser::{ASTNode, lemma_node_view, nodes_model, pairs_model};
use crate::value::{RegIndex, Value, values_model};
use super::calls::call_error;
use super::destructure::plan;
use super::operations::{
    apply_all, binary, compound, element, element_target, lift, store, strip_line_end,
    target_value, unary,
};
use super::semantics;
use super::step::{can_derive, has_room, is_connective, is_operator, outcome, unknown_variable};
use super::{Awaiting, Execution, Frame, Reply, Request, VarExistence, plan_model, targets_model};

verus! {

impl Execution {
    /// The first part of a binary node has yielded `value`.
    fn after_first(
        &mut self,
        memory: &mut Memory,
        scopes: &mut ScopeList,
        op: Token,
        other: ASTNode,
        scope: RegIndex,
        value: Value,
    ) -> (request: Request)
        requires
            old(memory)@.counter < usize::MAX,
        ensures
            outcome(*final(self), *final(memory), *final(scopes), request)
                == semantics::after_first(
                old(self)@.stack,
                old(memory)@,
                old(scopes)@,
                op,
                other@,
                scope,
                value@,
            ),
    {
        proof {
            lemma_node_view(other);
        }
        if is_operator(&op) {
            self.push(Frame::Second { op, first: value, scope });
            self.evaluating(other, scope)
        } else if is_connective(&op) {
            match value.to_bool() {
                Err(error) => self.abort(memory, &*scopes, error),
                Ok(truth) => {
                    let is_or = match op {
                        Token::Or => true,
                        _ => false,
                    };
                    if truth == is_or {
                        self.finish(memory, &*scopes, Value::Bool(truth))
                    } else {
                        self.push(Frame::Second { op, first: value, scope });
                        self.evaluating(other, scope)
                    }
                },
            }
        } else {
            match op {
                Token::LocalAssign => {
                    match other {
                        ASTNode::Var { name } => {
                            if scopes.set_var_local(name, scope, memory, &value) {
                                self.finish(memory, &*scopes, value)
                            } else {
                                self.fail(memory, &*scopes, "Cannot assign")
                            }
                        },
                        _ => self.fail(memory, &*scopes, "Expected variable name"),
                    }
                },
                Token::Assign => {
                    match other {
                        ASTNode::Array { values } => {
                            match &value {
                                Value::Array(handles) => {
                                    match plan(&values, handles, &*memory) {
                                        Err(error) => self.abort(memory, &*scopes, error),
                                        Ok(entries) => {
                                            assert(plan_model(entries@).len() == entries@.len());
                                            if entries.len() == 0 {
                                                self.finish(memory, &*scopes, value)
                                            } else {
                                                let first = entries[0].0.clone();
                                                assert(plan_model(entries@)[0].0 == entries@[0].0@);
                                                let targets: Vec<VarExistence> = Vec::new();
                                                assert(targets_model(targets@) =~= Seq::empty());
                                                self.push(
                                                    Frame::Destructure {
                                                        plan: entries,
                                                        targets,
                                                        right: value,
                                                        scope,
                                                    },
                                                );
                                                self.resolving(first, scope)
                                            }
                                        },
                                    }
                                },
                                _ => self.fail(memory, &*scopes, "cannot destructure non-array"),
                            }
                        },
                        other => {
                            self.push(Frame::Target { op: Token::Assign, right: value, scope });
                            self.resolving(other, scope)
                        },
                    }
                },
                op => {
                    self.push(Frame::Target { op, right: value, scope });
                    self.resolving(other, scope)
                },
            }
        }
    }

    /// Hands `value` to a node that passes it on or operates on it.
    fn deliver_operand(
        &mut self,
        memory: &mut Memory,
        scopes: &mut ScopeList,
        frame: Frame,
        value: Value,
    ) -> (request: Request)
        requires
            semantics::has_room(old(memory)@),
            resolves(value@, old(memory)@, old(scopes)@),
            frame is Pass || frame is Unary || frame is First || frame is Second,
        ensures
            outcome(*final(self), *final(memory), *final(scopes), request) == semantics::deliver(
                old(self)@.stack,
                old(memory)@,
                old(scopes)@,
                frame@,
                value@,
            ),
    {
        match frame {
            Frame::Pass { protect } => {
                if protect {
                    let value = memory.protect(value);
                    self.finish(memory, &*scopes, value)
                } else {
                    self.finish(memory, &*scopes, value)
                }
            },
            Frame::Unary { op } => {
                let value = memory.protect(value);
                let computation = lift(unary(&op, &value));
                self.complete(memory, &*scopes, computation, None)
            },
            Frame::First { op, other, scope } => {
                let value = memory.protect(value);
                self.after_first(memory, scopes, op, other, scope, value)
            },
            Frame::Second { op, first, scope } => {
                let value = memory.protect(value);
                if is_connective(&op) {
                    match value.to_bool() {
                        Err(error) => self.abort(memory, &*scopes, error),
                        Ok(truth) => self.finish(memory, &*scopes, Value::Bool(truth)),
                    }
                } else {
                    let computation = binary(&op, &first, &value, &*memory);
                    self.complete(memory, &*scopes, computation, None)
                }
            },
            _ => self.fail(memory, &*scopes, "Expected a target"),
        }
    }

    /// Hands `value` to a statement list, a conditional or a loop.
    fn deliver_flow(
        &mut self,
        memory: &mut Memory,
        scopes: &mut ScopeList,
        frame: Frame,
        value: Value,
    ) -> (request: Request)
        requires
            semantics::has_room(old(memory)@),
            resolves(value@, old(memory)@, old(scopes)@),
            frame is Statements || frame is IfCond || frame is WhileCond || frame is WhileBody,
        ensures
            outcome(*final(self), *final(memory), *final(scopes), request) == semantics::deliver(
                old(self)@.stack,
                old(memory)@,
                old(scopes)@,
                frame@,
                value@,
            ),
    {
        match frame {
            Frame::Statements { statements, next, scope } => {
                let value = memory.protect(value);
                assert(nodes_model(statements@).len() == statements@.len());
                if next < statements.len() {
                    let node = statements[next].clone();
                    assert(nodes_model(statements@)[next as int] == statements@[next as int]@);
                    self.push(Frame::Statements { statements, next: next + 1, scope });
                    self.evaluating(node, scope)
                } else {
                    self.finish(memory, &*scopes, value)
                }
            },
            Frame::IfCond { conds, index, if_none, scope } => {
                let value = memory.protect(value);
                assert(pairs_model(conds@).len() == conds@.len());
                match value.to_bool() {
                    Err(error) => self.abort(memory, &*scopes, error),
                    Ok(true) => {
                        if index < conds.len() && can_derive(&*scopes, scope, scope) {
                            let body = conds[index].1.clone();
                            assert(pairs_model(conds@)[index as int].1 == conds@[index as int].1@);
                            memory.pop_protected();
                            let derived = derive_scope(scope, scope, scopes);
                            self.evaluating(body, derived)
                        } else {
                            self.fail(memory, &*scopes, "Cannot derive scope")
                        }
                    },
                    Ok(false) => {
                        if index < usize::MAX && index + 1 < conds.len() {
                            let cond = conds[index + 1].0.clone();
                            assert(pairs_model(conds@)[index + 1].0 == conds@[index + 1].0@);
                            self.push(Frame::IfCond { conds, index: index + 1, if_none, scope });
                            self.evaluating(cond, scope)
                        } else {
                            self.otherwise(memory, scopes, if_none, scope)
                        }
                    },
                }
            },
            Frame::WhileCond { cond, code, last, scope } => {
                let value = memory.protect(value);
                match value.to_bool() {
                    Err(error) => self.abort(memory, &*scopes, error),
                    Ok(true) => {
                        if can_derive(&*scopes, scope, scope) {
                            let body = code.clone();
                            let derived = derive_scope(scope, scope, scopes);
                            self.push(Frame::WhileBody { cond, code, scope });
                            self.evaluating(body, derived)
                        } else {
                            self.fail(memory, &*scopes, "Cannot derive scope")
                        }
                    },
                    Ok(false) => self.finish(memory, &*scopes, last),
                }
            },
            Frame::WhileBody { cond, code, scope } => {
                let value = memory.protect(value);
                let again = cond.clone();
                self.push(Frame::WhileCond { cond, code, last: value, scope });
                self.evaluating(again, scope)
            },
            _ => self.fail(memory, &*scopes, "Expected a target"),
        }
    }

    /// Hands `value` to a call.
    fn deliver_call(
        &mut self,
        memory: &mut Memory,
        scopes: &mut ScopeList,
        frame: Frame,
        value: Value,
    ) -> (request: Request)
        requires
            semantics::has_room(old(memory)@),
            resolves(value@, old(memory)@, old(scopes)@),
            frame is CallBase || frame is CallArgs,
        ensures
            outcome(*final(self), *final(memory), *final(scopes), request) == semantics::deliver(
                old(self)@.stack,
                old(memory)@,
                old(scopes)@,
                frame@,
                value@,
            ),
    {
        match frame {
            Frame::CallBase { args, scope } => {
                let value = memory.protect(value);
                assert(nodes_model(args@).len() == args@.len());
                match call_error(&value, args.len()) {
                    Some(error) => self.abort(memory, &*scopes, error),
                    None => {
                        if args.len() == 0 {
                            let values: Vec<Value> = Vec::new();
                            assert(values_model(values@) =~= Seq::empty());
                            self.call(memory, scopes, value, values, scope)
                        } else {
                            let first = args[0].clone();
                            assert(nodes_model(args@)[0] == args@[0]@);
                            let values: Vec<Value> = Vec::new();
                            assert(values_model(values@) =~= Seq::empty());
                            self.push(Frame::CallArgs { callee: value, args, values, scope });
                            self.evaluating(first, scope)
                        }
                    },
                }
            },
            Frame::CallArgs { callee, args, values, scope } => {
                let value = memory.protect(value);
                assert(nodes_model(args@).len() == args@.len());
                assert(values_model(values@).len() == values@.len());
                let ghost before = values_model(values@);
                let mut values = values;
                values.push(value);
                assert(values_model(values@) =~= before.push(value@));
                if values.len() < args.len() {
                    let node = args[values.len()].clone();
                    assert(nodes_model(args@)[values@.len() as int] == args@[values@.len() as int]@);
                    self.push(Frame::CallArgs { callee, args, values, scope });
                    self.evaluating(node, scope)
                } else {
                    self.call(memory, scopes, callee, values, scope)
                }
            },
            _ => self.fail(memory, &*scopes, "Expected a target"),
        }
    }

    /// Hands `value` to an array literal or an index.
    fn deliver_item(
        &mut self,
        memory: &mut Memory,
        scopes: &mut ScopeList,
        frame: Frame,
        value: Value,
    ) -> (request: Request)
        requires
            semantics::has_room(old(memory)@),
            resolves(value@, old(memory)@, old(scopes)@),
            frame is ArrayItems || frame is IndexIdx || frame is IndexBase,
        ensures
            outcome(*final(self), *final(memory), *final(scopes), request) == semantics::deliver(
                old(self)@.stack,
                old(memory)@,
                old(scopes)@,
                frame@,
                value@,
            ),
    {
        match frame {
            Frame::ArrayItems { items, ids, scope } => {
                let id = memory.protect_id(value);
                assert(nodes_model(items@).len() == items@.len());
                let mut ids = ids;
                ids.push(id);
                if ids.len() < items.len() {
                    let node = items[ids.len()].clone();
                    assert(nodes_model(items@)[ids@.len() as int] == items@[ids@.len() as int]@);
                    self.push(Frame::ArrayItems { items, ids, scope });
                    self.evaluating(node, scope)
                } else {
                    self.finish(memory, &*scopes, Value::Array(ids))
                }
            },
            Frame::IndexIdx { base, scope, lvalue } => {
                let value = memory.protect(value);
                match value {
                    Value::Number(number) => {
                        if lvalue {
                            self.push(Frame::ResolveBase { number });
                            self.resolving(base, scope)
                        } else {
                            self.push(Frame::IndexBase { number });
                            self.evaluating(base, scope)
                        }
                    },
                    _ => {
                        if lvalue {
                            self.raising("Cannot index with type")
                        } else {
                            self.fail(memory, &*scopes, "Cannot index with type")
                        }
                    },
                }
            },
            Frame::IndexBase { number } => {
                let value = memory.protect(value);
                let computation = lift(element(&value, number, &*memory));
                self.complete(memory, &*scopes, computation, None)
            },
            _ => self.fail(memory, &*scopes, "Expected a target"),
        }
    }

    /// Hands `value` to the waiting node `frame`.
    pub(super) fn deliver(
        &mut self,
        memory: &mut Memory,
        scopes: &mut ScopeList,
        frame: Frame,
        value: Value,
    ) -> (request: Request)
        ensures
            outcome(*final(self), *final(memory), *final(scopes), request) == semantics::deliver(
                old(self)@.stack,
                old(memory)@,
                old(scopes)@,
                frame@,
                value@,
            ),
    {
        if !has_room(&*memory) {
            return match frame {
                Frame::IndexIdx { lvalue: true, .. } => self.raising("Out of memory"),
                Frame::ResolveBase { .. } => self.raising("Out of memory"),
                _ => self.fail(memory, &*scopes, "Out of memory"),
            };
        }
        if !test_resolves(&value, &*memory, &*scopes) {
            return match frame {
                Frame::IndexIdx { lvalue: true, .. } => self.raising("Value is gone"),
                Frame::ResolveBase { .. } => self.raising("Value is gone"),
                _ => self.fail(memory, &*scopes, "Value is gone"),
            };
        }
        match frame {
            Frame::Pass { .. } | Frame::Unary { .. } | Frame::First { .. } | Frame::Second { .. } => {
                self.deliver_operand(memory, scopes, frame, value)
            },
            Frame::Statements { .. } | Frame::IfCond { .. } | Frame::WhileCond { .. }
            | Frame::WhileBody { .. } => self.deliver_flow(memory, scopes, frame, value),
            Frame::CallBase { .. } | Frame::CallArgs { .. } => {
                self.deliver_call(memory, scopes, frame, value)
            },
            Frame::ArrayItems { .. } | Frame::IndexIdx { .. } | Frame::IndexBase { .. } => {
                self.deliver_item(memory, scopes, frame, value)
            },
            Frame::Target { .. } => self.fail(memory, &*scopes, "Expected a target"),
            Frame::Destructure { .. } => self.fail(memory, &*scopes, "Expected a target"),
            Frame::ResolveBase { .. } => self.raising("Expected a target"),
        }
    }

    /// Hands `target` to the waiting node `frame`.
    pub(super) fn deliver_target(
        &mut self,
        memory: &mut Memory,
        scopes: &mut ScopeList,
        frame: Frame,
        target: VarExistence,
    ) -> (request: Request)
        ensures
            outcome(*final(self), *final(memory), *final(scopes), request)
                == semantics::deliver_target(
                old(self)@.stack,
                old(memory)@,
                old(scopes)@,
                frame@,
                target@,
            ),
    {
        match frame {
            Frame::ResolveBase { number } => {
                match target_value(target, &*memory) {
                    Err(error) => self.throwing(error),
                    Ok(container) => {
                        match element_target(&container, number) {
                            Err(error) => self.throwing(error),
                            Ok(found) => self.resolved(found),
                        }
                    },
                }
            },
            Frame::Target { op: Token::Assign, right, scope } => {
                match store(scopes, memory, target, &right, scope) {
                    Some(error) => self.abort(memory, &*scopes, error),
                    None => self.finish(memory, &*scopes, right),
                }
            },
            Frame::Target { op, right, scope } => {
                match target {
                    VarExistence::Id(id) => {
                        match memory.lookup(id) {
                            Some(current) => {
                                let computation = compound(&op, current, &right);
                                self.complete(memory, &*scopes, computation, Some(id))
                            },
                            None => self.fail(memory, &*scopes, "Value is gone"),
                        }
                    },
                    VarExistence::Name(name) => {
                        self.abort(memory, &*scopes, unknown_variable(&name))
                    },
                    VarExistence::Deferred { value: _, message } => {
                        self.abort(memory, &*scopes, BaseError::InterpreterError(message))
                    },
                }
            },
            Frame::Destructure { plan, targets, right, scope } => {
                assert(plan_model(plan@).len() == plan@.len());
                assert(targets_model(targets@).len() == targets@.len());
                let ghost before = targets_model(targets@);
                let mut targets = targets;
                targets.push(target);
                assert(targets_model(targets@) =~= before.push(target@));
                if targets.len() < plan.len() {
                    let node = plan[targets.len()].0.clone();
                    assert(plan_model(plan@)[targets@.len() as int].0 == plan@[targets@.len() as int].0@);
                    self.push(Frame::Destructure { plan, targets, right, scope });
                    self.resolving(node, scope)
                } else {
                    match apply_all(scopes, memory, &plan, targets, scope) {
                        Some(error) => self.abort(memory, &*scopes, error),
                        None => self.finish(memory, &*scopes, right),
                    }
                }
            },
            Frame::IndexIdx { lvalue: true, .. } => self.raising("Expected a value"),
            _ => self.fail(memory, &*scopes, "Expected a value"),
        }
    }

    /// Takes the host's answer while the machine waits for one of the kind
    /// `kind`.
    pub(super) fn resume(
        &mut self,
        memory: &mut Memory,
        scopes: &ScopeList,
        kind: Awaiting,
        reply: Reply,
    ) -> (request: Request)
        ensures
            outcome(*final(self), *final(memory), *scopes, request) == semantics::resume(
                old(self)@.stack,
                old(memory)@,
                scopes@,
                kind,
                reply@,
            ),
    {
        match (kind, reply) {
            (Awaiting::Number { store }, Reply::Number(bits)) => {
                match store {
                    Some(id) => {
                        if memory.contains(id) {
                            memory.set(Value::Number(bits), id);
                            self.returning(Value::Number(bits))
                        } else {
                            self.raising("Value is gone")
                        }
                    },
                    None => self.returning(Value::Number(bits)),
                }
            },
            (Awaiting::Parsed, Reply::Parsed(Some(bits))) => self.returning(Value::Number(bits)),
            (Awaiting::Parsed, Reply::Parsed(None)) => self.raising(
                "Couldn't convert string to number",
            ),
            (Awaiting::Text, Reply::Text(text)) => self.returning(Value::String(text)),
            (Awaiting::Line, Reply::Line(line)) => self.returning(
                Value::String(strip_line_end(&line)),
            ),
            (Awaiting::Done, Reply::Done) => self.returning(Value::Null),
            _ => self.raising("Unexpected reply from host"),
        }
    }
}

} // verus!

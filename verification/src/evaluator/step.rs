//! The steps of the evaluator.

use vstd::prelude::*;
use vstd::string::StringExecFns;
use crate::errors::{BaseError, failure, interpreter_error};
use crate::interpreter::{Memory, ScopeList, derive_scope};
use crate::lexer::Token;
use crate::parser::{ASTNode, lemma_node_view};
use crate::value::{RegIndex, Value};
use super::semantics;
use super::semantics::{Machine, Stepped};
use super::{
    Awaiting, Control, ControlModel, Execution, Frame, Request, RequestModel, VarExistence,
    frames_model, option_model,
};

verus! {

/// The outcome of a step, read off the parts after it.
pub open spec fn outcome(
    execution: Execution,
    memory: Memory,
    scopes: ScopeList,
    request: Request,
) -> Stepped {
    Stepped {
        machine: Machine {
            control: execution@.control,
            stack: execution@.stack,
            memory: memory@,
            scopes: scopes@,
        },
        request: request@,
    }
}

/// The error that an unbound name raises.
pub fn unknown_variable(name: &String) -> (res: BaseError)
    ensures
        res@ == failure("Unknown variable "@ + name@),
{
    let mut message = String::from_str("Unknown variable ");
    message.append(name.as_str());
    BaseError::InterpreterError(message)
}

/// Whether the operator takes two values.
pub fn is_operator(op: &Token) -> (res: bool)
    ensures
        res == semantics::is_operator(*op),
{
    match op {
        Token::Plus | Token::Minus | Token::Mult | Token::Div | Token::Mod | Token::Pow
        | Token::Greater | Token::Lesser | Token::GreaterEq | Token::LesserEq | Token::Eq
        | Token::NotEq | Token::As => true,
        _ => false,
    }
}

/// Whether the operator is `&&` or `||`.
pub fn is_connective(op: &Token) -> (res: bool)
    ensures
        res == semantics::is_connective(*op),
{
    match op {
        Token::And | Token::Or => true,
        _ => false,
    }
}

/// Whether the operator assigns.
pub fn is_assignment(op: &Token) -> (res: bool)
    ensures
        res == semantics::is_assignment(*op),
{
    match op {
        Token::Assign | Token::LocalAssign | Token::PlusEq | Token::MinusEq | Token::MultEq
        | Token::DivEq | Token::ModEq | Token::PowEq => true,
        _ => false,
    }
}

/// Whether a frame can be derived below `parent` for `caller`.
pub fn can_derive(scopes: &ScopeList, parent: RegIndex, caller: RegIndex) -> (res: bool)
    ensures
        res == semantics::can_derive(scopes@, parent, caller),
{
    scopes.can_derive(parent) && scopes.contains(parent) && scopes.contains(caller)
}

/// Whether the heap can take what a step may store.
pub fn has_room(memory: &Memory) -> (res: bool)
    ensures
        res == semantics::has_room(memory@),
{
    memory.counter() < usize::MAX - 2 && memory.protected_depth() > 0
}

impl Execution {
    /// Puts a waiting node on the stack.
    pub(super) fn push(&mut self, frame: Frame)
        ensures
            final(self)@.stack == old(self)@.stack.push(frame@),
            final(self)@.control == old(self)@.control,
    {
        self.stack.push(frame);
        assert(frames_model(self.stack@) =~= frames_model(old(self).stack@).push(frame@));
    }

    /// Goes on to hand `value` to the innermost waiting node.
    pub(super) fn returning(&mut self, value: Value) -> (request: Request)
        ensures
            final(self)@.stack == old(self)@.stack,
            final(self)@.control == (ControlModel::Return { value: value@ }),
            request@ == RequestModel::Continue,
    {
        self.control = Control::Return { value };
        Request::Continue
    }

    /// Goes on to raise `error`.
    pub(super) fn throwing(&mut self, error: BaseError) -> (request: Request)
        ensures
            final(self)@.stack == old(self)@.stack,
            final(self)@.control == (ControlModel::Raise { error: error@ }),
            request@ == RequestModel::Continue,
    {
        self.control = Control::Raise { error };
        Request::Continue
    }

    /// Goes on to raise an evaluation error with the text `message`.
    pub(super) fn raising(&mut self, message: &str) -> (request: Request)
        ensures
            final(self)@.stack == old(self)@.stack,
            final(self)@.control == (ControlModel::Raise { error: failure(message@) }),
            request@ == RequestModel::Continue,
    {
        self.throwing(interpreter_error(message))
    }

    /// Goes on to evaluate `node` in the frame `scope`.
    pub(super) fn evaluating(&mut self, node: ASTNode, scope: RegIndex) -> (request: Request)
        ensures
            final(self)@.stack == old(self)@.stack,
            final(self)@.control == (ControlModel::Eval { node: node@, scope }),
            request@ == RequestModel::Continue,
    {
        self.control = Control::Eval { node, scope };
        Request::Continue
    }

    /// Goes on to resolve `node` as a target in the frame `scope`.
    pub(super) fn resolving(&mut self, node: ASTNode, scope: RegIndex) -> (request: Request)
        ensures
            final(self)@.stack == old(self)@.stack,
            final(self)@.control == (ControlModel::Resolve { node: node@, scope }),
            request@ == RequestModel::Continue,
    {
        self.control = Control::Resolve { node, scope };
        Request::Continue
    }

    /// Goes on to hand `target` to the innermost waiting node.
    pub(super) fn resolved(&mut self, target: VarExistence) -> (request: Request)
        ensures
            final(self)@.stack == old(self)@.stack,
            final(self)@.control == (ControlModel::Resolved { target: target@ }),
            request@ == RequestModel::Continue,
    {
        self.control = Control::Resolved { target };
        Request::Continue
    }

    /// Asks `request` of the host and waits for an answer of the kind `kind`.
    pub(super) fn asking(&mut self, kind: Awaiting, request: Request) -> (res: Request)
        ensures
            final(self)@.stack == old(self)@.stack,
            final(self)@.control == (ControlModel::Await { kind }),
            res@ == request@,
    {
        self.control = Control::Await { kind };
        request
    }

    /// Leaves a node with a value: pops the node's protected frame.
    pub(super) fn finish(&mut self, memory: &mut Memory, scopes: &ScopeList, value: Value) -> (request:
        Request)
        ensures
            outcome(*final(self), *final(memory), *scopes, request) == semantics::finish(
                old(self)@.stack,
                old(memory)@,
                scopes@,
                value@,
            ),
    {
        memory.pop_protected();
        self.returning(value)
    }

    /// Leaves a node with an error: pops the node's protected frame.
    pub(super) fn abort(&mut self, memory: &mut Memory, scopes: &ScopeList, error: BaseError) -> (request:
        Request)
        ensures
            outcome(*final(self), *final(memory), *scopes, request) == semantics::abort(
                old(self)@.stack,
                old(memory)@,
                scopes@,
                error@,
            ),
    {
        memory.pop_protected();
        self.throwing(error)
    }

    /// Leaves a node with an evaluation error.
    pub(super) fn fail(&mut self, memory: &mut Memory, scopes: &ScopeList, message: &str) -> (request:
        Request)
        ensures
            outcome(*final(self), *final(memory), *scopes, request) == semantics::fail(
                old(self)@.stack,
                old(memory)@,
                scopes@,
                message@,
            ),
    {
        self.abort(memory, scopes, interpreter_error(message))
    }

    /// Enters the branch that is taken when no condition holds.
    pub(super) fn otherwise(
        &mut self,
        memory: &mut Memory,
        scopes: &mut ScopeList,
        if_none: Option<ASTNode>,
        scope: RegIndex,
    ) -> (request: Request)
        ensures
            outcome(*final(self), *final(memory), *final(scopes), request) == semantics::otherwise(
                old(self)@.stack,
                old(memory)@,
                old(scopes)@,
                option_model(if_none),
                scope,
            ),
    {
        match if_none {
            Some(node) => {
                if can_derive(&*scopes, scope, scope) {
                    let derived = derive_scope(scope, scope, scopes);
                    self.push(Frame::Pass { protect: true });
                    self.evaluating(node, derived)
                } else {
                    self.fail(memory, &*scopes, "Cannot derive scope")
                }
            },
            None => self.finish(memory, &*scopes, Value::Null),
        }
    }

    /// Evaluates `node` in the frame `scope`.
    pub(super) fn eval(
        &mut self,
        memory: &mut Memory,
        scopes: &mut ScopeList,
        node: ASTNode,
        scope: RegIndex,
    ) -> (request: Request)
        ensures
            outcome(*final(self), *final(memory), *final(scopes), request) == semantics::eval(
                old(self)@.stack,
                old(memory)@,
                old(scopes)@,
                node@,
                scope,
            ),
    {
        if memory.over_threshold() {
            memory.collect(scopes, scope);
        }
        proof {
            lemma_node_view(node);
        }
        match node {
            ASTNode::Num { value } => self.returning(Value::Number(value)),
            ASTNode::Constant { value } => self.returning(value),
            ASTNode::Var { name } => {
                match scopes.get_var_id(name.clone(), scope) {
                    Some(id) => {
                        match memory.lookup(id) {
                            Some(value) => {
                                let copy = value.clone();
                                self.returning(copy)
                            },
                            None => self.raising("Value is gone"),
                        }
                    },
                    None => self.throwing(unknown_variable(&name)),
                }
            },
            ASTNode::Func { code, arg_names } => self.returning(
                Value::Function { arg_names, code, scope_id: scope },
            ),
            ASTNode::Value { value } => {
                memory.new_protected();
                self.push(Frame::Pass { protect: true });
                self.evaluating(*value, scope)
            },
            ASTNode::Block { code } => {
                if can_derive(&*scopes, scope, scope) {
                    memory.new_protected();
                    let derived = derive_scope(scope, scope, scopes);
                    self.push(Frame::Pass { protect: true });
                    self.evaluating(*code, derived)
                } else {
                    self.raising("Cannot derive scope")
                }
            },
            ASTNode::Unary { op, value } => {
                memory.new_protected();
                self.push(Frame::Unary { op });
                self.evaluating(*value, scope)
            },
            ASTNode::Op { left, op, right } => {
                if is_operator(&op) || is_connective(&op) {
                    memory.new_protected();
                    self.push(Frame::First { op, other: *right, scope });
                    self.evaluating(*left, scope)
                } else if is_assignment(&op) {
                    memory.new_protected();
                    self.push(Frame::First { op, other: *left, scope });
                    self.evaluating(*right, scope)
                } else {
                    self.raising("Unknown operation")
                }
            },
            ASTNode::StatementList { statements } => {
                if statements.len() == 0 {
                    self.returning(Value::Null)
                } else {
                    memory.new_protected();
                    let first = statements[0].clone();
                    self.push(Frame::Statements { statements, next: 1, scope });
                    self.evaluating(first, scope)
                }
            },
            ASTNode::If { conds, if_none } => {
                memory.new_protected();
                if conds.len() == 0 {
                    self.otherwise(memory, scopes, *if_none, scope)
                } else {
                    let first = conds[0].0.clone();
                    self.push(Frame::IfCond { conds, index: 0, if_none: *if_none, scope });
                    self.evaluating(first, scope)
                }
            },
            ASTNode::While { cond, code } => {
                memory.new_protected();
                let first = (*cond).clone();
                self.push(Frame::WhileCond { cond: *cond, code: *code, last: Value::Null, scope });
                self.evaluating(first, scope)
            },
            ASTNode::Call { base, args } => {
                memory.new_protected();
                self.push(Frame::CallBase { args, scope });
                self.evaluating(*base, scope)
            },
            ASTNode::Array { values } => {
                if values.len() == 0 {
                    self.returning(Value::Array(Vec::new()))
                } else {
                    memory.new_protected();
                    let first = values[0].clone();
                    self.push(Frame::ArrayItems { items: values, ids: Vec::new(), scope });
                    self.evaluating(first, scope)
                }
            },
            ASTNode::Index { base, index } => {
                memory.new_protected();
                self.push(Frame::IndexIdx { base: *base, scope, lvalue: false });
                self.evaluating(*index, scope)
            },
        }
    }

    /// Resolves `node` as the target of an assignment.
    pub(super) fn resolve(
        &mut self,
        memory: &Memory,
        scopes: &ScopeList,
        node: ASTNode,
        scope: RegIndex,
    ) -> (request: Request)
        ensures
            outcome(*final(self), *memory, *scopes, request) == semantics::resolve(
                old(self)@.stack,
                memory@,
                scopes@,
                node@,
                scope,
            ),
    {
        match node {
            ASTNode::Var { name } => {
                match scopes.get_var_id(name.clone(), scope) {
                    Some(id) => self.resolved(VarExistence::Id(id)),
                    None => self.resolved(VarExistence::Name(name)),
                }
            },
            ASTNode::Index { base, index } => {
                self.push(Frame::IndexIdx { base: *base, scope, lvalue: true });
                self.evaluating(*index, scope)
            },
            _ => self.raising("Expected variable name"),
        }
    }
}

} // verus!

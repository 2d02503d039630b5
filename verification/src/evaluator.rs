//! The evaluator: a machine that walks the syntax tree one step at a time.
//!
//! A step takes the machine, the heap and the scope arena from one state to
//! the next and says what it asks of the host, if anything: rounding
//! arithmetic on numbers, the rendering and parsing of numbers, output and
//! input. The host answers with the next step. What a step does is a
//! function of the state and of the host's answer alone, and is given in
//! [`semantics`] over the mathematical models of all parts.

use vstd::prelude::*;
use crate::errors::{BaseError, ErrorModel};
use crate::lexer::Token;
use crate::parser::{ASTNode, NodeModel, nodes_model, pairs_model};
use crate::value::{
    NumberFn, NumberOp, Piece, PieceModel, RegIndex, Value, ValueModel, pieces_model, values_model,
};

pub mod semantics;
pub mod step;
pub mod operations;
pub mod destructure;
pub mod calls;
pub mod delivery;
pub mod machine;

verus! {

/// Where an assignment goes: the result of resolving a node as a target.
#[derive(Debug)]
pub enum VarExistence {
    /// A name that nothing binds yet: assigning creates the binding.
    Name(String),
    /// An existing cell: assigning overwrites it in place.
    Id(RegIndex),
    /// A value that can be read but not written: assigning raises `message`.
    Deferred { value: Value, message: String },
}

/// Mathematical model of a [`VarExistence`].
pub enum TargetModel {
    Name(Seq<char>),
    Id(RegIndex),
    Deferred { value: ValueModel, message: Seq<char> },
}

impl View for VarExistence {
    type V = TargetModel;

    open spec fn view(&self) -> TargetModel {
        match self {
            VarExistence::Name(name) => TargetModel::Name(name@),
            VarExistence::Id(id) => TargetModel::Id(*id),
            VarExistence::Deferred { value, message } => TargetModel::Deferred {
                value: value@,
                message: message@,
            },
        }
    }
}

/// The models of a sequence of targets.
pub open spec fn targets_model(targets: Seq<VarExistence>) -> Seq<TargetModel> {
    Seq::new(targets.len(), |i: int| targets[i]@)
}

/// What a pattern of a destructuring assignment receives.
#[derive(Debug)]
pub enum Source {
    /// The value in one cell.
    Single(RegIndex),
    /// A new array of these cells.
    Spread(Vec<RegIndex>),
}

/// Mathematical model of a [`Source`].
pub enum SourceModel {
    Single(RegIndex),
    Spread(Seq<RegIndex>),
}

impl View for Source {
    type V = SourceModel;

    open spec fn view(&self) -> SourceModel {
        match self {
            Source::Single(h) => SourceModel::Single(*h),
            Source::Spread(hs) => SourceModel::Spread(hs@),
        }
    }
}

/// The model of the plan of a destructuring assignment.
pub open spec fn plan_model(plan: Seq<(ASTNode, Source)>) -> Seq<(NodeModel, SourceModel)> {
    Seq::new(plan.len(), |i: int| (plan[i].0@, plan[i].1@))
}

/// The answer that the machine waits for.
#[derive(Debug, Clone, Copy, PartialEq, Eq)]
pub enum Awaiting {
    /// A number, which is the value of the node; with `store`, the number
    /// is also written to that cell.
    Number { store: Option<RegIndex> },
    /// The number that a text denotes, if any.
    Parsed,
    /// A rendered text.
    Text,
    /// A line of input.
    Line,
    /// The word that output was written.
    Done,
}

/// What the machine does next.
#[derive(Debug)]
pub enum Control {
    /// Evaluate `node` in the frame `scope`.
    Eval { node: ASTNode, scope: RegIndex },
    /// Resolve `node` as the target of an assignment in the frame `scope`.
    Resolve { node: ASTNode, scope: RegIndex },
    /// Hand a value to the node that waits for it.
    Return { value: Value },
    /// Hand a target to the node that waits for it.
    Resolved { target: VarExistence },
    /// Unwind with an error.
    Raise { error: BaseError },
    /// Wait for the host's answer.
    Await { kind: Awaiting },
    /// Nothing is left to do.
    Done,
}

/// Mathematical model of a [`Control`].
pub enum ControlModel {
    Eval { node: NodeModel, scope: RegIndex },
    Resolve { node: NodeModel, scope: RegIndex },
    Return { value: ValueModel },
    Resolved { target: TargetModel },
    Raise { error: ErrorModel },
    Await { kind: Awaiting },
    Done,
}

impl View for Control {
    type V = ControlModel;

    open spec fn view(&self) -> ControlModel {
        match self {
            Control::Eval { node, scope } => ControlModel::Eval { node: node@, scope: *scope },
            Control::Resolve { node, scope } => ControlModel::Resolve { node: node@, scope: *scope },
            Control::Return { value } => ControlModel::Return { value: value@ },
            Control::Resolved { target } => ControlModel::Resolved { target: target@ },
            Control::Raise { error } => ControlModel::Raise { error: error@ },
            Control::Await { kind } => ControlModel::Await { kind: *kind },
            Control::Done => ControlModel::Done,
        }
    }
}

/// A node that waits for the result of one of its parts.
#[derive(Debug)]
pub enum Frame {
    /// Hands the value on, after protecting it if `protect` is set.
    Pass { protect: bool },
    /// A unary operator waits for its operand.
    Unary { op: Token },
    /// A binary node waits for the part that is evaluated first: the left
    /// operand of an operator, the right side of an assignment.
    First { op: Token, other: ASTNode, scope: RegIndex },
    /// An operator waits for its right operand.
    Second { op: Token, first: Value, scope: RegIndex },
    /// An assignment waits for its target.
    Target { op: Token, right: Value, scope: RegIndex },
    /// A statement list waits for the statement before `next`.
    Statements { statements: Vec<ASTNode>, next: usize, scope: RegIndex },
    /// A conditional waits for the condition at `index`.
    IfCond { conds: Vec<(ASTNode, ASTNode)>, index: usize, if_none: Option<ASTNode>, scope: RegIndex },
    /// A loop waits for its condition; `last` is the value of the last pass.
    WhileCond { cond: ASTNode, code: ASTNode, last: Value, scope: RegIndex },
    /// A loop waits for its body.
    WhileBody { cond: ASTNode, code: ASTNode, scope: RegIndex },
    /// A call waits for what is called.
    CallBase { args: Vec<ASTNode>, scope: RegIndex },
    /// A call waits for the argument after those in `values`.
    CallArgs { callee: Value, args: Vec<ASTNode>, values: Vec<Value>, scope: RegIndex },
    /// An array literal waits for the item after those in `ids`.
    ArrayItems { items: Vec<ASTNode>, ids: Vec<RegIndex>, scope: RegIndex },
    /// An index waits for the position; `lvalue` says that the index is
    /// being resolved as a target.
    IndexIdx { base: ASTNode, scope: RegIndex, lvalue: bool },
    /// An index waits for the container as a value.
    IndexBase { number: u64 },
    /// An index waits for the container as a target.
    ResolveBase { number: u64 },
    /// A destructuring assignment waits for the target after those in
    /// `targets`.
    Destructure {
        plan: Vec<(ASTNode, Source)>,
        targets: Vec<VarExistence>,
        right: Value,
        scope: RegIndex,
    },
}

/// Mathematical model of a [`Frame`].
pub enum FrameModel {
    Pass { protect: bool },
    Unary { op: Token },
    First { op: Token, other: NodeModel, scope: RegIndex },
    Second { op: Token, first: ValueModel, scope: RegIndex },
    Target { op: Token, right: ValueModel, scope: RegIndex },
    Statements { statements: Seq<NodeModel>, next: usize, scope: RegIndex },
    IfCond {
        conds: Seq<(NodeModel, NodeModel)>,
        index: usize,
        if_none: Option<NodeModel>,
        scope: RegIndex,
    },
    WhileCond { cond: NodeModel, code: NodeModel, last: ValueModel, scope: RegIndex },
    WhileBody { cond: NodeModel, code: NodeModel, scope: RegIndex },
    CallBase { args: Seq<NodeModel>, scope: RegIndex },
    CallArgs { callee: ValueModel, args: Seq<NodeModel>, values: Seq<ValueModel>, scope: RegIndex },
    ArrayItems { items: Seq<NodeModel>, ids: Seq<RegIndex>, scope: RegIndex },
    IndexIdx { base: NodeModel, scope: RegIndex, lvalue: bool },
    IndexBase { number: u64 },
    ResolveBase { number: u64 },
    Destructure {
        plan: Seq<(NodeModel, SourceModel)>,
        targets: Seq<TargetModel>,
        right: ValueModel,
        scope: RegIndex,
    },
}

/// The model of an optional node.
pub open spec fn option_model(node: Option<ASTNode>) -> Option<NodeModel> {
    match node {
        Some(n) => Some(n@),
        None => None,
    }
}

impl View for Frame {
    type V = FrameModel;

    open spec fn view(&self) -> FrameModel {
        match self {
            Frame::Pass { protect } => FrameModel::Pass { protect: *protect },
            Frame::Unary { op } => FrameModel::Unary { op: *op },
            Frame::First { op, other, scope } => FrameModel::First {
                op: *op,
                other: other@,
                scope: *scope,
            },
            Frame::Second { op, first, scope } => FrameModel::Second {
                op: *op,
                first: first@,
                scope: *scope,
            },
            Frame::Target { op, right, scope } => FrameModel::Target {
                op: *op,
                right: right@,
                scope: *scope,
            },
            Frame::Statements { statements, next, scope } => FrameModel::Statements {
                statements: nodes_model(statements@),
                next: *next,
                scope: *scope,
            },
            Frame::IfCond { conds, index, if_none, scope } => FrameModel::IfCond {
                conds: pairs_model(conds@),
                index: *index,
                if_none: option_model(*if_none),
                scope: *scope,
            },
            Frame::WhileCond { cond, code, last, scope } => FrameModel::WhileCond {
                cond: cond@,
                code: code@,
                last: last@,
                scope: *scope,
            },
            Frame::WhileBody { cond, code, scope } => FrameModel::WhileBody {
                cond: cond@,
                code: code@,
                scope: *scope,
            },
            Frame::CallBase { args, scope } => FrameModel::CallBase {
                args: nodes_model(args@),
                scope: *scope,
            },
            Frame::CallArgs { callee, args, values, scope } => FrameModel::CallArgs {
                callee: callee@,
                args: nodes_model(args@),
                values: values_model(values@),
                scope: *scope,
            },
            Frame::ArrayItems { items, ids, scope } => FrameModel::ArrayItems {
                items: nodes_model(items@),
                ids: ids@,
                scope: *scope,
            },
            Frame::IndexIdx { base, scope, lvalue } => FrameModel::IndexIdx {
                base: base@,
                scope: *scope,
                lvalue: *lvalue,
            },
            Frame::IndexBase { number } => FrameModel::IndexBase { number: *number },
            Frame::ResolveBase { number } => FrameModel::ResolveBase { number: *number },
            Frame::Destructure { plan, targets, right, scope } => FrameModel::Destructure {
                plan: plan_model(plan@),
                targets: targets_model(targets@),
                right: right@,
                scope: *scope,
            },
        }
    }
}

/// The models of a stack of frames, innermost last.
pub open spec fn frames_model(frames: Seq<Frame>) -> Seq<FrameModel> {
    Seq::new(frames.len(), |i: int| frames[i]@)
}

/// What a step asks of the host.
#[derive(Debug)]
pub enum Request {
    /// Nothing: take the next step.
    Continue,
    /// The number `left op right`.
    Binary { op: NumberOp, left: u64, right: u64 },
    /// The number `function(argument)`.
    Unary { function: NumberFn, argument: u64 },
    /// The number that `text` denotes, if it denotes one.
    Parse { text: String },
    /// The text that the pieces render to.
    Render { pieces: Vec<Piece> },
    /// To write the rendered pieces, and a line end after them if `newline`
    /// is set.
    Print { pieces: Vec<Piece>, newline: bool },
    /// To write `prompt` and read one line.
    Input { prompt: String },
    /// To write a dump of the heap and the arena for debugging.
    Dump,
    /// Nothing: the evaluation has ended with this result.
    Finished { result: Result<Value, BaseError> },
    /// Nothing: there is no evaluation in progress.
    Idle,
}

/// Mathematical model of a [`Request`].
pub enum RequestModel {
    Continue,
    Binary { op: NumberOp, left: u64, right: u64 },
    Unary { function: NumberFn, argument: u64 },
    Parse { text: Seq<char> },
    Render { pieces: Seq<PieceModel> },
    Print { pieces: Seq<PieceModel>, newline: bool },
    Input { prompt: Seq<char> },
    Dump,
    Finished { result: Result<ValueModel, ErrorModel> },
    Idle,
}

impl View for Request {
    type V = RequestModel;

    open spec fn view(&self) -> RequestModel {
        match self {
            Request::Continue => RequestModel::Continue,
            Request::Binary { op, left, right } => RequestModel::Binary {
                op: *op,
                left: *left,
                right: *right,
            },
            Request::Unary { function, argument } => RequestModel::Unary {
                function: *function,
                argument: *argument,
            },
            Request::Parse { text } => RequestModel::Parse { text: text@ },
            Request::Render { pieces } => RequestModel::Render { pieces: pieces_model(pieces@) },
            Request::Print { pieces, newline } => RequestModel::Print {
                pieces: pieces_model(pieces@),
                newline: *newline,
            },
            Request::Input { prompt } => RequestModel::Input { prompt: prompt@ },
            Request::Dump => RequestModel::Dump,
            Request::Finished { result } => RequestModel::Finished {
                result: match result {
                    Ok(value) => Ok(value@),
                    Err(error) => Err(error@),
                },
            },
            Request::Idle => RequestModel::Idle,
        }
    }
}

/// The host's answer to the request of the step before.
#[derive(Debug)]
pub enum Reply {
    /// No answer: nothing was asked.
    Nothing,
    /// The number asked for.
    Number(u64),
    /// The number that the text denotes, or that it denotes none.
    Parsed(Option<u64>),
    /// The rendered text.
    Text(String),
    /// The line that was read.
    Line(String),
    /// The output has been written.
    Done,
}

/// Mathematical model of a [`Reply`].
pub enum ReplyModel {
    Nothing,
    Number(u64),
    Parsed(Option<u64>),
    Text(Seq<char>),
    Line(Seq<char>),
    Done,
}

impl View for Reply {
    type V = ReplyModel;

    open spec fn view(&self) -> ReplyModel {
        match self {
            Reply::Nothing => ReplyModel::Nothing,
            Reply::Number(bits) => ReplyModel::Number(*bits),
            Reply::Parsed(bits) => ReplyModel::Parsed(*bits),
            Reply::Text(text) => ReplyModel::Text(text@),
            Reply::Line(line) => ReplyModel::Line(line@),
            Reply::Done => ReplyModel::Done,
        }
    }
}

/// An evaluation in progress: what to do next, and the nodes that wait.
#[derive(Debug)]
pub struct Execution {
    control: Control,
    stack: Vec<Frame>,
}

/// Mathematical model of an [`Execution`].
pub struct ExecutionModel {
    pub control: ControlModel,
    pub stack: Seq<FrameModel>,
}

impl View for Execution {
    type V = ExecutionModel;

    closed spec fn view(&self) -> ExecutionModel {
        ExecutionModel { control: self.control@, stack: frames_model(self.stack@) }
    }
}

} // verus!

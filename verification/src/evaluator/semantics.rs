//! What a step of the evaluator does, over the models of all parts.
//!
//! Every node that is being evaluated owns one protected frame of the heap,
//! pushed when the node is entered and popped when it is left, by a value or
//! by an error. What a node takes from one of its parts it protects in that
//! frame, so that a collection in the middle of the node keeps it.

use vstd::prelude::*;
use crate::errors::{ErrorModel, failure};
use crate::interpreter::collector::resolves;
use crate::interpreter::{MemoryModel, ScopesModel, assign, assign_local, lookup_binding};
use crate::lexer::Token;
use crate::number::index_of;
use crate::parser::NodeModel;
use crate::value::{ComputedModel, PieceModel, RegIndex, ValueModel, print_form};
use super::{
    Awaiting, ControlModel, FrameModel, ReplyModel, RequestModel, SourceModel, TargetModel,
};

verus! {

/// The whole state that a step works on.
pub struct Machine {
    pub control: ControlModel,
    pub stack: Seq<FrameModel>,
    pub memory: MemoryModel,
    pub scopes: ScopesModel,
}

/// The outcome of a step: the next state, and what is asked of the host.
pub struct Stepped {
    pub machine: Machine,
    pub request: RequestModel,
}

/// A step that asks nothing of the host.
pub open spec fn proceed(
    control: ControlModel,
    stack: Seq<FrameModel>,
    memory: MemoryModel,
    scopes: ScopesModel,
) -> Stepped {
    Stepped { machine: Machine { control, stack, memory, scopes }, request: RequestModel::Continue }
}

/// A step that hands `value` to the innermost waiting node.
pub open spec fn returning(
    stack: Seq<FrameModel>,
    memory: MemoryModel,
    scopes: ScopesModel,
    value: ValueModel,
) -> Stepped {
    proceed(ControlModel::Return { value }, stack, memory, scopes)
}

/// A step that raises `error`.
pub open spec fn throwing(
    stack: Seq<FrameModel>,
    memory: MemoryModel,
    scopes: ScopesModel,
    error: ErrorModel,
) -> Stepped {
    proceed(ControlModel::Raise { error }, stack, memory, scopes)
}

/// A step that raises an evaluation error with the text `message`.
pub open spec fn raising(
    stack: Seq<FrameModel>,
    memory: MemoryModel,
    scopes: ScopesModel,
    message: Seq<char>,
) -> Stepped {
    throwing(stack, memory, scopes, failure(message))
}

/// A step that goes on to evaluate `node` in the frame `scope`.
pub open spec fn evaluating(
    stack: Seq<FrameModel>,
    memory: MemoryModel,
    scopes: ScopesModel,
    node: NodeModel,
    scope: RegIndex,
) -> Stepped {
    proceed(ControlModel::Eval { node, scope }, stack, memory, scopes)
}

/// A step that goes on to resolve `node` as a target in the frame `scope`.
pub open spec fn resolving(
    stack: Seq<FrameModel>,
    memory: MemoryModel,
    scopes: ScopesModel,
    node: NodeModel,
    scope: RegIndex,
) -> Stepped {
    proceed(ControlModel::Resolve { node, scope }, stack, memory, scopes)
}

/// A step that hands `target` to the innermost waiting node.
pub open spec fn resolved(
    stack: Seq<FrameModel>,
    memory: MemoryModel,
    scopes: ScopesModel,
    target: TargetModel,
) -> Stepped {
    proceed(ControlModel::Resolved { target }, stack, memory, scopes)
}

/// A step that asks `request` of the host and waits for an answer of the
/// kind `kind`.
pub open spec fn asking(
    stack: Seq<FrameModel>,
    memory: MemoryModel,
    scopes: ScopesModel,
    kind: Awaiting,
    request: RequestModel,
) -> Stepped {
    Stepped {
        machine: Machine { control: ControlModel::Await { kind }, stack, memory, scopes },
        request,
    }
}

/// A step that leaves a node with `value`: the node's protected frame is
/// popped.
pub open spec fn finish(
    stack: Seq<FrameModel>,
    memory: MemoryModel,
    scopes: ScopesModel,
    value: ValueModel,
) -> Stepped {
    returning(stack, memory.pop_protected(), scopes, value)
}

/// A step that leaves a node with `error`: the node's protected frame is
/// popped.
pub open spec fn abort(
    stack: Seq<FrameModel>,
    memory: MemoryModel,
    scopes: ScopesModel,
    error: ErrorModel,
) -> Stepped {
    throwing(stack, memory.pop_protected(), scopes, error)
}

/// A step that leaves a node with an evaluation error.
pub open spec fn fail(
    stack: Seq<FrameModel>,
    memory: MemoryModel,
    scopes: ScopesModel,
    message: Seq<char>,
) -> Stepped {
    abort(stack, memory, scopes, failure(message))
}

/// Whether the operator takes two values: arithmetic, comparison, cast.
pub open spec fn is_operator(op: Token) -> bool {
    op is Plus || op is Minus || op is Mult || op is Div || op is Mod || op is Pow || op is Greater
        || op is Lesser || op is GreaterEq || op is LesserEq || op is Eq || op is NotEq || op is As
}

/// Whether the operator is `&&` or `||`.
pub open spec fn is_connective(op: Token) -> bool {
    op is And || op is Or
}

/// Whether the operator computes and assigns: `+=` and its kin.
pub open spec fn is_compound(op: Token) -> bool {
    op is PlusEq || op is MinusEq || op is MultEq || op is DivEq || op is ModEq || op is PowEq
}

/// Whether the operator assigns.
pub open spec fn is_assignment(op: Token) -> bool {
    op is Assign || op is LocalAssign || is_compound(op)
}

/// Whether a frame can be derived below `parent` for `caller`: both are
/// live, and a handle is left.
pub open spec fn can_derive(scopes: ScopesModel, parent: RegIndex, caller: RegIndex) -> bool {
    &&& scopes.counter < usize::MAX
    &&& parent <= scopes.counter
    &&& scopes.frames.contains_key(parent)
    &&& scopes.frames.contains_key(caller)
}

/// Whether the heap can take what a step may store: handles are left, and a
/// protected frame is there.
pub open spec fn has_room(memory: MemoryModel) -> bool {
    memory.counter < usize::MAX - 2 && memory.protected.len() > 0
}

/// Whether a waiting node owns a protected frame. The parts of a target
/// that is being resolved own none: what they take goes to the frame of the
/// assignment around them.
pub open spec fn owns_protected(frame: FrameModel) -> bool {
    match frame {
        FrameModel::IndexIdx { lvalue, .. } => !lvalue,
        FrameModel::ResolveBase { .. } => false,
        _ => true,
    }
}

/// A value as the outcome of an operation that the host need not finish.
pub open spec fn lift(res: Result<ValueModel, ErrorModel>) -> Result<ComputedModel, ErrorModel> {
    match res {
        Ok(value) => Ok(ComputedModel::Value(value)),
        Err(error) => Err(error),
    }
}

/// A unary operator applied to a value.
pub open spec fn unary(op: Token, value: ValueModel) -> Result<ValueModel, ErrorModel> {
    match op {
        Token::Plus => value.give(),
        Token::Minus => value.neg(),
        Token::Not => value.not(),
        _ => Err(failure("Non '+','-','!' unary operation"@)),
    }
}

/// A binary operator applied to two values in a heap with the cells `cells`.
pub open spec fn binary(
    op: Token,
    a: ValueModel,
    b: ValueModel,
    cells: Map<RegIndex, ValueModel>,
) -> Result<ComputedModel, ErrorModel> {
    match op {
        Token::Plus => a.plus(b),
        Token::Minus => a.minus(b),
        Token::Mult => a.mult(b),
        Token::Div => a.div(b),
        Token::Mod => a.rem(b),
        Token::Pow => a.pow(b),
        Token::Greater => lift(a.gr(b)),
        Token::GreaterEq => lift(a.greq(b)),
        Token::Lesser => lift(a.sm(b)),
        Token::LesserEq => lift(a.smeq(b)),
        Token::Eq => lift(a.eq(b, cells)),
        Token::NotEq => lift(a.neq(b, cells)),
        Token::As => a.cast_to(b, cells),
        _ => Err(failure("Unknown operation"@)),
    }
}

/// The operator of a compound assignment applied to the current value of
/// the target and to the right side.
pub open spec fn compound(op: Token, current: ValueModel, right: ValueModel) -> Result<
    ComputedModel,
    ErrorModel,
> {
    match op {
        Token::PlusEq => current.plus(right),
        Token::MinusEq => current.minus(right),
        Token::MultEq => current.mult(right),
        Token::DivEq => current.div(right),
        Token::ModEq => current.rem(right),
        Token::PowEq => current.pow(right),
        _ => Err(failure("Unknown operation"@)),
    }
}

/// A step that leaves a node with the outcome of an operation. A value is
/// handed on, and written to the cell `store` first if there is one and
/// the value can be stored without a dangling reference; what the host
/// must finish is asked of it.
pub open spec fn complete(
    stack: Seq<FrameModel>,
    memory: MemoryModel,
    scopes: ScopesModel,
    outcome: Result<ComputedModel, ErrorModel>,
    store: Option<RegIndex>,
) -> Stepped {
    match outcome {
        Err(error) => abort(stack, memory, scopes, error),
        Ok(ComputedModel::Value(value)) => match store {
            Some(id) => if memory.cells.contains_key(id) && resolves(value, memory, scopes) {
                finish(stack, memory.set(value, id), scopes, value)
            } else {
                fail(stack, memory, scopes, "Value is gone"@)
            },
            None => finish(stack, memory, scopes, value),
        },
        Ok(ComputedModel::Binary { op, left, right }) => asking(
            stack,
            memory.pop_protected(),
            scopes,
            Awaiting::Number { store },
            RequestModel::Binary { op, left, right },
        ),
        Ok(ComputedModel::Unary { function, argument }) => asking(
            stack,
            memory.pop_protected(),
            scopes,
            Awaiting::Number { store },
            RequestModel::Unary { function, argument },
        ),
        Ok(ComputedModel::Parse { text }) => asking(
            stack,
            memory.pop_protected(),
            scopes,
            Awaiting::Parsed,
            RequestModel::Parse { text },
        ),
        Ok(ComputedModel::Render { pieces }) => asking(
            stack,
            memory.pop_protected(),
            scopes,
            Awaiting::Text,
            RequestModel::Render { pieces },
        ),
    }
}

/// The element that a number selects in a container: a cell's value for an
/// array, a string of one character for a string.
pub open spec fn element(
    container: ValueModel,
    number: u64,
    cells: Map<RegIndex, ValueModel>,
) -> Result<ValueModel, ErrorModel> {
    match container {
        ValueModel::Array(handles) => match index_of(number, handles.len() as usize) {
            Some(i) => if cells.contains_key(handles[i as int]) {
                Ok(cells[handles[i as int]])
            } else {
                Err(failure("Value is gone"@))
            },
            None => Err(failure("Index out of bounds"@)),
        },
        ValueModel::String(s) => match index_of(number, s.len() as usize) {
            Some(i) => Ok(ValueModel::String(seq![s[i as int]])),
            None => Err(failure("Index out of bounds"@)),
        },
        _ => Err(failure("Type cannot be indexed"@)),
    }
}

/// The target that a number selects in a container: the element's own cell
/// for an array, so that a write goes through to the shared cell; for a
/// string a character that can be read and not written.
pub open spec fn element_target(container: ValueModel, number: u64) -> Result<
    TargetModel,
    ErrorModel,
> {
    match container {
        ValueModel::Array(handles) => match index_of(number, handles.len() as usize) {
            Some(i) => Ok(TargetModel::Id(handles[i as int])),
            None => Err(failure("Index out of bounds"@)),
        },
        ValueModel::String(s) => match index_of(number, s.len() as usize) {
            Some(i) => Ok(
                TargetModel::Deferred {
                    value: ValueModel::String(seq![s[i as int]]),
                    message: "cannot assign to string index"@,
                },
            ),
            None => Err(failure("Index out of bounds"@)),
        },
        _ => Err(failure("Type cannot be indexed"@)),
    }
}

/// The value that a target holds, for indexing into it.
pub open spec fn target_value(target: TargetModel, cells: Map<RegIndex, ValueModel>) -> Result<
    ValueModel,
    ErrorModel,
> {
    match target {
        TargetModel::Name(name) => Err(failure("Unknown variable "@ + name)),
        TargetModel::Id(id) => if cells.contains_key(id) {
            Ok(cells[id])
        } else {
            Err(failure("Value is gone"@))
        },
        TargetModel::Deferred { value, .. } => Ok(value),
    }
}

/// The outcome of one or more writes: the arena and the heap after them,
/// and the error that stopped them, if one did.
pub struct Applied {
    pub scopes: ScopesModel,
    pub memory: MemoryModel,
    pub error: Option<ErrorModel>,
}

/// A write of `value` to `target` from the frame `scope`: an existing cell
/// is overwritten, an unbound name is bound in `scope`, and a target that
/// cannot be written raises its error. A value that refers to something
/// that is gone is not written.
pub open spec fn store(
    scopes: ScopesModel,
    memory: MemoryModel,
    target: TargetModel,
    value: ValueModel,
    scope: RegIndex,
) -> Applied {
    match target {
        TargetModel::Deferred { message, .. } => Applied {
            scopes,
            memory,
            error: Some(failure(message)),
        },
        _ => if !resolves(value, memory, scopes) {
            Applied { scopes, memory, error: Some(failure("Value is gone"@)) }
        } else {
            store_resolved(scopes, memory, target, value, scope)
        },
    }
}

/// A write of a value whose references resolve.
pub open spec fn store_resolved(
    scopes: ScopesModel,
    memory: MemoryModel,
    target: TargetModel,
    value: ValueModel,
    scope: RegIndex,
) -> Applied {
    match target {
        TargetModel::Id(id) => if memory.cells.contains_key(id) {
            Applied { scopes, memory: memory.set(value, id), error: None }
        } else {
            Applied { scopes, memory, error: Some(failure("Value is gone"@)) }
        },
        TargetModel::Name(name) => if memory.counter == usize::MAX {
            Applied { scopes, memory, error: Some(failure("Out of memory"@)) }
        } else {
            let assigned = assign(scopes, memory, name, scope, value, true);
            Applied {
                scopes: assigned.scopes,
                memory: assigned.memory,
                error: if assigned.done {
                    None
                } else {
                    Some(failure("Cannot assign"@))
                },
            }
        },
        TargetModel::Deferred { message, .. } => Applied {
            scopes,
            memory,
            error: Some(failure(message)),
        },
    }
}

/// The value that a pattern receives from its source: what the cell holds,
/// or a new array of the cells. There is none if the cell is gone.
pub open spec fn source_value(source: SourceModel, cells: Map<RegIndex, ValueModel>) -> Option<
    ValueModel,
> {
    match source {
        SourceModel::Single(h) => if cells.contains_key(h) {
            Some(cells[h])
        } else {
            None
        },
        SourceModel::Spread(handles) => Some(ValueModel::Array(handles)),
    }
}

/// The writes of a destructuring assignment from entry `from` on, in order,
/// up to the first that fails.
pub open spec fn apply_all(
    scopes: ScopesModel,
    memory: MemoryModel,
    plan: Seq<(NodeModel, SourceModel)>,
    targets: Seq<TargetModel>,
    scope: RegIndex,
    from: int,
) -> Applied
    decreases plan.len() - from,
{
    if from < 0 || from >= plan.len() || from >= targets.len() {
        Applied { scopes, memory, error: None }
    } else {
        match source_value(plan[from].1, memory.cells) {
            None => Applied { scopes, memory, error: Some(failure("Value is gone"@)) },
            Some(value) => {
                let written = store(scopes, memory, targets[from], value, scope);
                if written.error is Some {
                    written
                } else {
                    apply_all(written.scopes, written.memory, plan, targets, scope, from + 1)
                }
            },
        }
    }
}

/// The bindings of the parameters from position `from` on to the values of
/// the arguments, each local to the frame `run`, up to the first that
/// fails: for want of a handle, or because the value refers to something
/// that is gone.
pub open spec fn bind_args(
    scopes: ScopesModel,
    memory: MemoryModel,
    names: Seq<Seq<char>>,
    values: Seq<ValueModel>,
    run: RegIndex,
    from: int,
) -> Applied
    decreases names.len() - from,
{
    if from < 0 || from >= names.len() || from >= values.len() {
        Applied { scopes, memory, error: None }
    } else if memory.counter == usize::MAX {
        Applied { scopes, memory, error: Some(failure("Out of memory"@)) }
    } else if !resolves(values[from], memory, scopes) {
        Applied { scopes, memory, error: Some(failure("Value is gone"@)) }
    } else {
        let assigned = assign_local(scopes, memory, names[from], run, values[from]);
        if assigned.done {
            bind_args(assigned.scopes, assigned.memory, names, values, run, from + 1)
        } else {
            Applied {
                scopes: assigned.scopes,
                memory: assigned.memory,
                error: Some(failure("Cannot assign"@)),
            }
        }
    }
}

/// The print forms of the values from position `from` on, one after the
/// other with nothing between them.
pub open spec fn print_all(
    values: Seq<ValueModel>,
    cells: Map<RegIndex, ValueModel>,
    from: int,
) -> Seq<PieceModel>
    decreases values.len() - from,
{
    if from < 0 || from >= values.len() {
        Seq::empty()
    } else {
        print_form(values[from], cells, Seq::empty(), cells.dom().len()) + print_all(
            values,
            cells,
            from + 1,
        )
    }
}

/// A line without the line end: every carriage return and line feed at its
/// end is dropped.
pub open spec fn strip_line_end(line: Seq<char>) -> Seq<char>
    decreases line.len(),
{
    if line.len() > 0 && (line.last() == '\n' || line.last() == '\r') {
        strip_line_end(line.drop_last())
    } else {
        line
    }
}

/// The decimal digit `d`.
pub open spec fn digit(d: nat) -> char {
    if d == 0 {
        '0'
    } else if d == 1 {
        '1'
    } else if d == 2 {
        '2'
    } else if d == 3 {
        '3'
    } else if d == 4 {
        '4'
    } else if d == 5 {
        '5'
    } else if d == 6 {
        '6'
    } else if d == 7 {
        '7'
    } else if d == 8 {
        '8'
    } else {
        '9'
    }
}

/// The decimal numeral of `n`.
pub open spec fn decimal(n: nat) -> Seq<char>
    decreases n,
{
    if n < 10 {
        seq![digit(n)]
    } else {
        decimal(n / 10) + seq![digit(n % 10)]
    }
}

/// What is wrong with calling the builtin `name` with `count` arguments, if
/// anything is.
pub open spec fn arity_error(name: Seq<char>, count: nat) -> Option<Seq<char>> {
    if name == "sin"@ || name == "cos"@ || name == "tan"@ || name == "len"@ || name == "input"@ {
        if count == 1 {
            None
        } else {
            Some("Expected 1 argument"@)
        }
    } else if name == "print"@ || name == "println"@ {
        None
    } else if name == "collect"@ || name == "memtest"@ {
        if count == 0 {
            None
        } else {
            Some("Expected 0 arguments"@)
        }
    } else {
        Some("Unknown builtin"@)
    }
}

/// A step that calls the builtin `name` on the values of its arguments.
pub open spec fn call_builtin(
    stack: Seq<FrameModel>,
    memory: MemoryModel,
    scopes: ScopesModel,
    name: Seq<char>,
    values: Seq<ValueModel>,
    scope: RegIndex,
) -> Stepped {
    if arity_error(name, values.len()) is Some {
        fail(stack, memory, scopes, arity_error(name, values.len())->0)
    } else if name == "sin"@ {
        complete(stack, memory, scopes, values[0].sin(), None)
    } else if name == "cos"@ {
        complete(stack, memory, scopes, values[0].cos(), None)
    } else if name == "tan"@ {
        complete(stack, memory, scopes, values[0].tan(), None)
    } else if name == "len"@ {
        complete(stack, memory, scopes, lift(values[0].len()), None)
    } else if name == "input"@ {
        match values[0] {
            ValueModel::String(prompt) => asking(
                stack,
                memory.pop_protected(),
                scopes,
                Awaiting::Line,
                RequestModel::Input { prompt },
            ),
            _ => fail(stack, memory, scopes, "Expected string for argument"@),
        }
    } else if name == "print"@ {
        asking(
            stack,
            memory.pop_protected(),
            scopes,
            Awaiting::Done,
            RequestModel::Print { pieces: print_all(values, memory.cells, 0), newline: false },
        )
    } else if name == "println"@ {
        asking(
            stack,
            memory.pop_protected(),
            scopes,
            Awaiting::Done,
            RequestModel::Print { pieces: print_all(values, memory.cells, 0), newline: true },
        )
    } else if name == "collect"@ {
        finish(
            stack,
            memory.collected(scopes, scope),
            scopes.collected(memory, scope),
            ValueModel::Null,
        )
    } else {
        asking(stack, memory.pop_protected(), scopes, Awaiting::Done, RequestModel::Dump)
    }
}

/// A step that calls `callee` on the values of its arguments. A function
/// runs its body in a fresh frame whose parent is the frame that the
/// function captured and whose caller is the frame of the call; the
/// parameters are bound in that frame.
pub open spec fn call(
    stack: Seq<FrameModel>,
    memory: MemoryModel,
    scopes: ScopesModel,
    callee: ValueModel,
    values: Seq<ValueModel>,
    scope: RegIndex,
) -> Stepped {
    match callee {
        ValueModel::Builtin(name) => call_builtin(stack, memory, scopes, name, values, scope),
        ValueModel::Function { arg_names, code, scope_id } => if arg_names.len() != values.len() {
            fail(
                stack,
                memory,
                scopes,
                "Expected "@ + decimal(arg_names.len()) + " argument(s)"@,
            )
        } else if !can_derive(scopes, scope_id, scope) {
            fail(stack, memory, scopes, "Cannot derive scope"@)
        } else {
            let derived = scopes.derive(scope_id, scope);
            let bound = bind_args(derived, memory, arg_names, values, derived.counter, 0);
            match bound.error {
                None => evaluating(
                    stack.push(FrameModel::Pass { protect: false }),
                    bound.memory,
                    bound.scopes,
                    *code,
                    derived.counter,
                ),
                Some(error) => abort(stack, bound.memory, bound.scopes, error),
            }
        },
        _ => fail(stack, memory, scopes, "Invalid base for call"@),
    }
}

/// What is wrong with calling `callee` with `count` arguments, if anything
/// is: known before any argument is evaluated.
pub open spec fn call_error(callee: ValueModel, count: nat) -> Option<Seq<char>> {
    match callee {
        ValueModel::Builtin(name) => arity_error(name, count),
        ValueModel::Function { arg_names, .. } => if arg_names.len() != count {
            Some("Expected "@ + decimal(arg_names.len()) + " argument(s)"@)
        } else {
            None
        },
        _ => Some("Invalid base for call"@),
    }
}

/// Whether a pattern is a spread: `..target`.
pub open spec fn is_spread(pattern: NodeModel) -> bool {
    pattern matches NodeModel::Unary { op, .. } && op is Range
}

/// The number of spreads among the patterns.
pub open spec fn count_spreads(patterns: Seq<NodeModel>) -> nat
    decreases patterns.len(),
{
    if patterns.len() == 0 {
        0
    } else {
        count_spreads(patterns.drop_last()) + if is_spread(patterns.last()) {
            1nat
        } else {
            0nat
        }
    }
}

/// The number of items that spread `i` of `spreads` receives when `spare`
/// items are left for the spreads: an even share, and one more for the
/// first spreads while the remainder lasts.
pub open spec fn spread_share(spare: nat, spreads: nat, i: nat) -> nat {
    if spreads == 0 {
        0
    } else {
        spare / spreads + if i < spare % spreads {
            1nat
        } else {
            0nat
        }
    }
}

/// The plan of a destructuring assignment: which target receives what.
/// Without a spread the patterns and the items pair off one to one. With
/// spreads each other pattern receives one item, and the spreads share the
/// rest. A pattern that is itself an array is matched against the array in
/// its item.
pub open spec fn plan(
    patterns: Seq<NodeModel>,
    handles: Seq<RegIndex>,
    cells: Map<RegIndex, ValueModel>,
) -> Result<Seq<(NodeModel, SourceModel)>, ErrorModel>
    decreases patterns, patterns.len() + 1,
{
    let spreads = count_spreads(patterns);
    if spreads == 0 && patterns.len() != handles.len() {
        Err(failure("Cannot destructure: lengths differ"@))
    } else if spreads > 0 && handles.len() < patterns.len() - spreads {
        Err(failure("Cannot destructure: lengths differ"@))
    } else {
        plan_from(
            patterns,
            0,
            handles,
            0,
            0,
            (handles.len() - (patterns.len() - spreads)) as nat,
            spreads,
            cells,
        )
    }
}

/// The plan for the patterns from position `at` on, which receive the items
/// from position `pos` on; `spread` spreads lie before `at`.
pub open spec fn plan_from(
    patterns: Seq<NodeModel>,
    at: int,
    handles: Seq<RegIndex>,
    pos: int,
    spread: nat,
    spare: nat,
    spreads: nat,
    cells: Map<RegIndex, ValueModel>,
) -> Result<Seq<(NodeModel, SourceModel)>, ErrorModel>
    decreases patterns, patterns.len() - at,
{
    if at < 0 || at >= patterns.len() {
        Ok(Seq::empty())
    } else if pos < 0 || pos > handles.len() {
        Err(failure("Cannot destructure: lengths differ"@))
    } else {
        match patterns[at] {
            NodeModel::Unary { op: Token::Range, value } => {
                let share = spread_share(spare, spreads, spread);
                if pos + share > handles.len() {
                    Err(failure("Cannot destructure: lengths differ"@))
                } else {
                    match plan_from(
                        patterns,
                        at + 1,
                        handles,
                        pos + share,
                        spread + 1,
                        spare,
                        spreads,
                        cells,
                    ) {
                        Ok(rest) => Ok(
                            seq![(*value, SourceModel::Spread(handles.subrange(pos, pos + share)))]
                                + rest,
                        ),
                        Err(error) => Err(error),
                    }
                }
            },
            NodeModel::Array { values } => {
                if pos >= handles.len() {
                    Err(failure("Cannot destructure: lengths differ"@))
                } else if !cells.contains_key(handles[pos]) {
                    Err(failure("Value is gone"@))
                } else {
                    match cells[handles[pos]] {
                        ValueModel::Array(inner) => match plan(values, inner, cells) {
                            Ok(first) => match plan_from(
                                patterns,
                                at + 1,
                                handles,
                                pos + 1,
                                spread,
                                spare,
                                spreads,
                                cells,
                            ) {
                                Ok(rest) => Ok(first + rest),
                                Err(error) => Err(error),
                            },
                            Err(error) => Err(error),
                        },
                        _ => Err(failure("cannot destructure non-array"@)),
                    }
                }
            },
            other => {
                if pos >= handles.len() {
                    Err(failure("Cannot destructure: lengths differ"@))
                } else {
                    match plan_from(
                        patterns,
                        at + 1,
                        handles,
                        pos + 1,
                        spread,
                        spare,
                        spreads,
                        cells,
                    ) {
                        Ok(rest) => Ok(seq![(other, SourceModel::Single(handles[pos]))] + rest),
                        Err(error) => Err(error),
                    }
                }
            },
        }
    }
}

/// A step that enters the branch that is taken when no condition holds:
/// the `else` body in a fresh frame, or the value `Null` without one.
pub open spec fn otherwise(
    stack: Seq<FrameModel>,
    memory: MemoryModel,
    scopes: ScopesModel,
    if_none: Option<NodeModel>,
    scope: RegIndex,
) -> Stepped {
    match if_none {
        Some(node) => if can_derive(scopes, scope, scope) {
            evaluating(
                stack.push(FrameModel::Pass { protect: true }),
                memory,
                scopes.derive(scope, scope),
                node,
                scopes.derive(scope, scope).counter,
            )
        } else {
            fail(stack, memory, scopes, "Cannot derive scope"@)
        },
        None => finish(stack, memory, scopes, ValueModel::Null),
    }
}

/// The step that evaluates `node` in the frame `scope`. The heap is
/// collected first if it has outgrown its threshold. A literal, a name or a
/// function yields its value at once; any other node pushes its protected
/// frame, waits on the stack, and has its first part evaluated.
pub open spec fn eval(
    stack: Seq<FrameModel>,
    before: MemoryModel,
    arena: ScopesModel,
    node: NodeModel,
    scope: RegIndex,
) -> Stepped {
    let memory = if before.over_threshold() {
        before.collected(arena, scope)
    } else {
        before
    };
    let scopes = if before.over_threshold() {
        arena.collected(before, scope)
    } else {
        arena
    };
    let entered = memory.new_protected();
    match node {
        NodeModel::Num { value } => returning(stack, memory, scopes, ValueModel::Number(value)),
        NodeModel::Constant { value } => returning(stack, memory, scopes, value),
        NodeModel::Var { name } => match lookup_binding(scopes.frames, name, scope) {
            Some(id) => if memory.cells.contains_key(id) {
                returning(stack, memory, scopes, memory.cells[id])
            } else {
                raising(stack, memory, scopes, "Value is gone"@)
            },
            None => raising(stack, memory, scopes, "Unknown variable "@ + name),
        },
        NodeModel::Func { code, arg_names } => returning(
            stack,
            memory,
            scopes,
            ValueModel::Function { arg_names, code, scope_id: scope },
        ),
        NodeModel::Value { value } => evaluating(
            stack.push(FrameModel::Pass { protect: true }),
            entered,
            scopes,
            *value,
            scope,
        ),
        NodeModel::Block { code } => if can_derive(scopes, scope, scope) {
            evaluating(
                stack.push(FrameModel::Pass { protect: true }),
                entered,
                scopes.derive(scope, scope),
                *code,
                scopes.derive(scope, scope).counter,
            )
        } else {
            raising(stack, memory, scopes, "Cannot derive scope"@)
        },
        NodeModel::Unary { op, value } => evaluating(
            stack.push(FrameModel::Unary { op }),
            entered,
            scopes,
            *value,
            scope,
        ),
        NodeModel::Op { left, op, right } => if is_operator(op) || is_connective(op) {
            evaluating(
                stack.push(FrameModel::First { op, other: *right, scope }),
                entered,
                scopes,
                *left,
                scope,
            )
        } else if is_assignment(op) {
            evaluating(
                stack.push(FrameModel::First { op, other: *left, scope }),
                entered,
                scopes,
                *right,
                scope,
            )
        } else {
            raising(stack, memory, scopes, "Unknown operation"@)
        },
        NodeModel::StatementList { statements } => if statements.len() == 0 {
            returning(stack, memory, scopes, ValueModel::Null)
        } else {
            evaluating(
                stack.push(FrameModel::Statements { statements, next: 1, scope }),
                entered,
                scopes,
                statements[0],
                scope,
            )
        },
        NodeModel::If { conds, if_none } => if conds.len() == 0 {
            otherwise(
                stack,
                entered,
                scopes,
                match if_none {
                    Some(n) => Some(*n),
                    None => None,
                },
                scope,
            )
        } else {
            evaluating(
                stack.push(
                    FrameModel::IfCond {
                        conds,
                        index: 0,
                        if_none: match if_none {
                            Some(n) => Some(*n),
                            None => None,
                        },
                        scope,
                    },
                ),
                entered,
                scopes,
                conds[0].0,
                scope,
            )
        },
        NodeModel::While { cond, code } => evaluating(
            stack.push(
                FrameModel::WhileCond { cond: *cond, code: *code, last: ValueModel::Null, scope },
            ),
            entered,
            scopes,
            *cond,
            scope,
        ),
        NodeModel::Call { base, args } => evaluating(
            stack.push(FrameModel::CallBase { args, scope }),
            entered,
            scopes,
            *base,
            scope,
        ),
        NodeModel::Array { values } => if values.len() == 0 {
            returning(stack, memory, scopes, ValueModel::Array(Seq::empty()))
        } else {
            evaluating(
                stack.push(FrameModel::ArrayItems { items: values, ids: Seq::empty(), scope }),
                entered,
                scopes,
                values[0],
                scope,
            )
        },
        NodeModel::Index { base, index } => evaluating(
            stack.push(FrameModel::IndexIdx { base: *base, scope, lvalue: false }),
            entered,
            scopes,
            *index,
            scope,
        ),
    }
}

/// The step that resolves `node` as the target of an assignment. A name is
/// the cell that it resolves to, or the name itself if nothing binds it. An
/// index has its position evaluated, then its container resolved. Nothing
/// else is a target.
pub open spec fn resolve(
    stack: Seq<FrameModel>,
    memory: MemoryModel,
    scopes: ScopesModel,
    node: NodeModel,
    scope: RegIndex,
) -> Stepped {
    match node {
        NodeModel::Var { name } => match lookup_binding(scopes.frames, name, scope) {
            Some(id) => resolved(stack, memory, scopes, TargetModel::Id(id)),
            None => resolved(stack, memory, scopes, TargetModel::Name(name)),
        },
        NodeModel::Index { base, index } => evaluating(
            stack.push(FrameModel::IndexIdx { base: *base, scope, lvalue: true }),
            memory,
            scopes,
            *index,
            scope,
        ),
        _ => raising(stack, memory, scopes, "Expected variable name"@),
    }
}

/// The step in which the first part of a binary node has yielded `value`,
/// already protected in `memory`.
pub open spec fn after_first(
    stack: Seq<FrameModel>,
    memory: MemoryModel,
    scopes: ScopesModel,
    op: Token,
    other: NodeModel,
    scope: RegIndex,
    value: ValueModel,
) -> Stepped {
    if is_operator(op) {
        evaluating(
            stack.push(FrameModel::Second { op, first: value, scope }),
            memory,
            scopes,
            other,
            scope,
        )
    } else if is_connective(op) {
        match value.to_bool() {
            Err(error) => abort(stack, memory, scopes, error),
            Ok(truth) => if truth == (op is Or) {
                finish(stack, memory, scopes, ValueModel::Bool(truth))
            } else {
                evaluating(
                    stack.push(FrameModel::Second { op, first: value, scope }),
                    memory,
                    scopes,
                    other,
                    scope,
                )
            },
        }
    } else if op is LocalAssign {
        match other {
            NodeModel::Var { name } => {
                let assigned = assign_local(scopes, memory, name, scope, value);
                if assigned.done {
                    finish(stack, assigned.memory, assigned.scopes, value)
                } else {
                    fail(stack, assigned.memory, assigned.scopes, "Cannot assign"@)
                }
            },
            _ => fail(stack, memory, scopes, "Expected variable name"@),
        }
    } else if op is Assign && other is Array {
        match value {
            ValueModel::Array(handles) => match plan(other->values, handles, memory.cells) {
                Err(error) => abort(stack, memory, scopes, error),
                Ok(entries) => if entries.len() == 0 {
                    finish(stack, memory, scopes, value)
                } else {
                    resolving(
                        stack.push(
                            FrameModel::Destructure {
                                plan: entries,
                                targets: Seq::empty(),
                                right: value,
                                scope,
                            },
                        ),
                        memory,
                        scopes,
                        entries[0].0,
                        scope,
                    )
                },
            },
            _ => fail(stack, memory, scopes, "cannot destructure non-array"@),
        }
    } else {
        resolving(
            stack.push(FrameModel::Target { op, right: value, scope }),
            memory,
            scopes,
            other,
            scope,
        )
    }
}

/// The step that hands `value` to the waiting node `frame`, with the rest
/// of the stack below it. The node protects the value in its frame, then
/// goes on with its next part or leaves with its own value. A value that
/// refers to something that is gone is refused: nothing that dangles is
/// ever stored.
pub open spec fn deliver(
    stack: Seq<FrameModel>,
    before: MemoryModel,
    scopes: ScopesModel,
    frame: FrameModel,
    value: ValueModel,
) -> Stepped {
    let memory = before.protect(value);
    if !has_room(before) {
        if owns_protected(frame) {
            fail(stack, before, scopes, "Out of memory"@)
        } else {
            raising(stack, before, scopes, "Out of memory"@)
        }
    } else if !resolves(value, before, scopes) {
        if owns_protected(frame) {
            fail(stack, before, scopes, "Value is gone"@)
        } else {
            raising(stack, before, scopes, "Value is gone"@)
        }
    } else {
        match frame {
            FrameModel::Pass { protect } => if protect {
                finish(stack, memory, scopes, value)
            } else {
                finish(stack, before, scopes, value)
            },
            FrameModel::Unary { op } => complete(stack, memory, scopes, lift(unary(op, value)), None),
            FrameModel::First { op, other, scope } => after_first(
                stack,
                memory,
                scopes,
                op,
                other,
                scope,
                value,
            ),
            FrameModel::Second { op, first, scope } => if is_connective(op) {
                match value.to_bool() {
                    Err(error) => abort(stack, memory, scopes, error),
                    Ok(truth) => finish(stack, memory, scopes, ValueModel::Bool(truth)),
                }
            } else {
                complete(stack, memory, scopes, binary(op, first, value, memory.cells), None)
            },
            FrameModel::Statements { statements, next, scope } => if next < statements.len() {
                evaluating(
                    stack.push(
                        FrameModel::Statements { statements, next: (next + 1) as usize, scope },
                    ),
                    memory,
                    scopes,
                    statements[next as int],
                    scope,
                )
            } else {
                finish(stack, memory, scopes, value)
            },
            FrameModel::IfCond { conds, index, if_none, scope } => match value.to_bool() {
                Err(error) => abort(stack, memory, scopes, error),
                Ok(true) => if index < conds.len() && can_derive(scopes, scope, scope) {
                    evaluating(
                        stack,
                        memory.pop_protected(),
                        scopes.derive(scope, scope),
                        conds[index as int].1,
                        scopes.derive(scope, scope).counter,
                    )
                } else {
                    fail(stack, memory, scopes, "Cannot derive scope"@)
                },
                Ok(false) => if index + 1 < conds.len() {
                    evaluating(
                        stack.push(
                            FrameModel::IfCond {
                                conds,
                                index: (index + 1) as usize,
                                if_none,
                                scope,
                            },
                        ),
                        memory,
                        scopes,
                        conds[index + 1].0,
                        scope,
                    )
                } else {
                    otherwise(stack, memory, scopes, if_none, scope)
                },
            },
            FrameModel::WhileCond { cond, code, last, scope } => match value.to_bool() {
                Err(error) => abort(stack, memory, scopes, error),
                Ok(true) => if can_derive(scopes, scope, scope) {
                    evaluating(
                        stack.push(FrameModel::WhileBody { cond, code, scope }),
                        memory,
                        scopes.derive(scope, scope),
                        code,
                        scopes.derive(scope, scope).counter,
                    )
                } else {
                    fail(stack, memory, scopes, "Cannot derive scope"@)
                },
                Ok(false) => finish(stack, memory, scopes, last),
            },
            FrameModel::WhileBody { cond, code, scope } => evaluating(
                stack.push(FrameModel::WhileCond { cond, code, last: value, scope }),
                memory,
                scopes,
                cond,
                scope,
            ),
            FrameModel::CallBase { args, scope } => if call_error(value, args.len()) is Some {
                fail(stack, memory, scopes, call_error(value, args.len())->0)
            } else if args.len() == 0 {
                call(stack, memory, scopes, value, Seq::empty(), scope)
            } else {
                evaluating(
                    stack.push(
                        FrameModel::CallArgs { callee: value, args, values: Seq::empty(), scope },
                    ),
                    memory,
                    scopes,
                    args[0],
                    scope,
                )
            },
            FrameModel::CallArgs { callee, args, values, scope } => if values.len() + 1
                < args.len() {
                evaluating(
                    stack.push(
                        FrameModel::CallArgs { callee, args, values: values.push(value), scope },
                    ),
                    memory,
                    scopes,
                    args[values.len() as int + 1],
                    scope,
                )
            } else {
                call(stack, memory, scopes, callee, values.push(value), scope)
            },
            FrameModel::ArrayItems { items, ids, scope } => if ids.len() + 1 < items.len() {
                evaluating(
                    stack.push(
                        FrameModel::ArrayItems { items, ids: ids.push(memory.counter), scope },
                    ),
                    memory,
                    scopes,
                    items[ids.len() as int + 1],
                    scope,
                )
            } else {
                finish(stack, memory, scopes, ValueModel::Array(ids.push(memory.counter)))
            },
            FrameModel::IndexIdx { base, scope, lvalue } => match value {
                ValueModel::Number(number) => if lvalue {
                    resolving(
                        stack.push(FrameModel::ResolveBase { number }),
                        memory,
                        scopes,
                        base,
                        scope,
                    )
                } else {
                    evaluating(
                        stack.push(FrameModel::IndexBase { number }),
                        memory,
                        scopes,
                        base,
                        scope,
                    )
                },
                _ => if lvalue {
                    raising(stack, memory, scopes, "Cannot index with type"@)
                } else {
                    fail(stack, memory, scopes, "Cannot index with type"@)
                },
            },
            FrameModel::IndexBase { number } => complete(
                stack,
                memory,
                scopes,
                lift(element(value, number, memory.cells)),
                None,
            ),
            FrameModel::Target { .. } => fail(stack, before, scopes, "Expected a target"@),
            FrameModel::Destructure { .. } => fail(stack, before, scopes, "Expected a target"@),
            FrameModel::ResolveBase { .. } => raising(stack, before, scopes, "Expected a target"@),
        }
    }
}

/// The step that hands `target` to the waiting node `frame`, with the rest
/// of the stack below it.
pub open spec fn deliver_target(
    stack: Seq<FrameModel>,
    memory: MemoryModel,
    scopes: ScopesModel,
    frame: FrameModel,
    target: TargetModel,
) -> Stepped {
    match frame {
        FrameModel::ResolveBase { number } => match target_value(target, memory.cells) {
            Err(error) => throwing(stack, memory, scopes, error),
            Ok(container) => match element_target(container, number) {
                Err(error) => throwing(stack, memory, scopes, error),
                Ok(found) => resolved(stack, memory, scopes, found),
            },
        },
        FrameModel::Target { op, right, scope } => if op is Assign {
            let written = store(scopes, memory, target, right, scope);
            match written.error {
                Some(error) => abort(stack, written.memory, written.scopes, error),
                None => finish(stack, written.memory, written.scopes, right),
            }
        } else {
            match target {
                TargetModel::Id(id) => if memory.cells.contains_key(id) {
                    complete(stack, memory, scopes, compound(op, memory.cells[id], right), Some(id))
                } else {
                    fail(stack, memory, scopes, "Value is gone"@)
                },
                TargetModel::Name(name) => fail(stack, memory, scopes, "Unknown variable "@ + name),
                TargetModel::Deferred { message, .. } => fail(stack, memory, scopes, message),
            }
        },
        FrameModel::Destructure { plan, targets, right, scope } => if targets.len() + 1
            < plan.len() {
            resolving(
                stack.push(
                    FrameModel::Destructure { plan, targets: targets.push(target), right, scope },
                ),
                memory,
                scopes,
                plan[targets.len() as int + 1].0,
                scope,
            )
        } else {
            let written = apply_all(scopes, memory, plan, targets.push(target), scope, 0);
            match written.error {
                Some(error) => abort(stack, written.memory, written.scopes, error),
                None => finish(stack, written.memory, written.scopes, right),
            }
        },
        _ => if owns_protected(frame) {
            fail(stack, memory, scopes, "Expected a value"@)
        } else {
            raising(stack, memory, scopes, "Expected a value"@)
        },
    }
}

/// The step that takes the host's answer `reply` while the machine waits
/// for an answer of the kind `kind`.
pub open spec fn resume(
    stack: Seq<FrameModel>,
    memory: MemoryModel,
    scopes: ScopesModel,
    kind: Awaiting,
    reply: ReplyModel,
) -> Stepped {
    match (kind, reply) {
        (Awaiting::Number { store }, ReplyModel::Number(bits)) => match store {
            Some(id) => if memory.cells.contains_key(id) {
                returning(
                    stack,
                    memory.set(ValueModel::Number(bits), id),
                    scopes,
                    ValueModel::Number(bits),
                )
            } else {
                raising(stack, memory, scopes, "Value is gone"@)
            },
            None => returning(stack, memory, scopes, ValueModel::Number(bits)),
        },
        (Awaiting::Parsed, ReplyModel::Parsed(Some(bits))) => returning(
            stack,
            memory,
            scopes,
            ValueModel::Number(bits),
        ),
        (Awaiting::Parsed, ReplyModel::Parsed(None)) => raising(
            stack,
            memory,
            scopes,
            "Couldn't convert string to number"@,
        ),
        (Awaiting::Text, ReplyModel::Text(text)) => returning(
            stack,
            memory,
            scopes,
            ValueModel::String(text),
        ),
        (Awaiting::Line, ReplyModel::Line(line)) => returning(
            stack,
            memory,
            scopes,
            ValueModel::String(strip_line_end(line)),
        ),
        (Awaiting::Done, ReplyModel::Done) => returning(stack, memory, scopes, ValueModel::Null),
        _ => raising(stack, memory, scopes, "Unexpected reply from host"@),
    }
}

/// The outcome of a step that ends the evaluation with `result`.
pub open spec fn ending(
    stack: Seq<FrameModel>,
    memory: MemoryModel,
    scopes: ScopesModel,
    result: Result<ValueModel, ErrorModel>,
) -> Stepped {
    Stepped {
        machine: Machine { control: ControlModel::Done, stack, memory, scopes },
        request: RequestModel::Finished { result },
    }
}

/// One step of the evaluator, given the host's answer to the request of
/// the step before.
#[verifier::opaque]
pub open spec fn step(machine: Machine, reply: ReplyModel) -> Stepped {
    let stack = machine.stack;
    let memory = machine.memory;
    let scopes = machine.scopes;
    match machine.control {
        ControlModel::Eval { node, scope } => eval(stack, memory, scopes, node, scope),
        ControlModel::Resolve { node, scope } => resolve(stack, memory, scopes, node, scope),
        ControlModel::Return { value } => if stack.len() == 0 {
            ending(stack, memory, scopes, Ok(value))
        } else {
            deliver(stack.drop_last(), memory, scopes, stack.last(), value)
        },
        ControlModel::Resolved { target } => if stack.len() == 0 {
            ending(stack, memory, scopes, Err(failure("Expected a value"@)))
        } else {
            deliver_target(stack.drop_last(), memory, scopes, stack.last(), target)
        },
        ControlModel::Raise { error } => if stack.len() == 0 {
            ending(stack, memory, scopes, Err(error))
        } else if owns_protected(stack.last()) {
            throwing(stack.drop_last(), memory.pop_protected(), scopes, error)
        } else {
            throwing(stack.drop_last(), memory, scopes, error)
        },
        ControlModel::Await { kind } => resume(stack, memory, scopes, kind, reply),
        ControlModel::Done => Stepped { machine, request: RequestModel::Idle },
    }
}

/// The state in which the evaluation of `node` starts: the root frame is
/// current, nothing waits, and no protected frame is left over.
pub open spec fn start(node: NodeModel, memory: MemoryModel, scopes: ScopesModel) -> Machine {
    Machine {
        control: ControlModel::Eval { node, scope: 0 },
        stack: Seq::empty(),
        memory: MemoryModel { protected: Seq::empty(), ..memory },
        scopes,
    }
}

/// Up to `fuel` steps, stopping at the first that asks something of the
/// host or ends the evaluation. Nothing is answered after the first step.
pub open spec fn run(machine: Machine, reply: ReplyModel, fuel: nat) -> Stepped
    decreases fuel,
{
    if fuel == 0 {
        Stepped { machine, request: RequestModel::Continue }
    } else {
        let stepped = step(machine, reply);
        if stepped.request is Continue {
            run(stepped.machine, ReplyModel::Nothing, (fuel - 1) as nat)
        } else {
            stepped
        }
    }
}

} // verus!

//! Laws of the language, proved from the semantics.

use vstd::prelude::*;
use crate::errors::{ErrorModel, failure};
use crate::evaluator::semantics::{
    Applied, Machine, after_first, apply_all, bind_args, call, complete, count_spreads, deliver,
    deliver_target, element, element_target, eval, finish, is_spread, otherwise, owns_protected,
    plan, plan_from, resolve, spread_share, step, store,
};
use crate::evaluator::{ControlModel, FrameModel, ReplyModel, SourceModel};
use crate::interpreter::collector::{
    Node, closed, edge, gc_roots, is_protected, live_nodes, refers, resolves, survives,
};
use crate::interpreter::{
    MemoryModel, ScopeModel, ScopesModel, assign_local, lookup_binding,
};
use crate::lexer::Token;
use crate::number::index_of;
use crate::parser::NodeModel;
use crate::value::{RegIndex, ValueModel, equal_within, is_visited, print_elements, print_form, text};

verus! {

/// A local assignment does not leak: after `name := value` in the frame
/// `scope`, every name resolves from every older frame as it did before,
/// and every cell but the fresh one holds what it held. Older frames are
/// those with smaller handles: the enclosing frames are among them.
pub proof fn lemma_local_assignment_does_not_leak(
    scopes: ScopesModel,
    memory: MemoryModel,
    name: Seq<char>,
    scope: RegIndex,
    value: ValueModel,
    other: Seq<char>,
    from: RegIndex,
)
    requires
        from < scope,
        memory.counter < usize::MAX,
    ensures
        lookup_binding(assign_local(scopes, memory, name, scope, value).scopes.frames, other, from)
            == lookup_binding(scopes.frames, other, from),
        forall|id: RegIndex|
            id != memory.counter + 1 && memory.cells.contains_key(id) ==> assign_local(
                scopes,
                memory,
                name,
                scope,
                value,
            ).memory.cells.contains_key(id) && assign_local(
                scopes,
                memory,
                name,
                scope,
                value,
            ).memory.cells[id] == memory.cells[id],
    decreases from,
{
    let after = assign_local(scopes, memory, name, scope, value).scopes;
    if scopes.frames.contains_key(from) && !scopes.frames[from].vars.contains_key(other) {
        match scopes.frames[from].parent_id {
            Some(parent) => {
                if parent < from {
                    lemma_local_assignment_does_not_leak(
                        scopes,
                        memory,
                        name,
                        scope,
                        value,
                        other,
                        parent,
                    );
                }
            },
            None => {},
        }
    }
}

/// A local assignment shadows: after `name := value` in the live frame
/// `scope`, the name resolves from that frame to the fresh cell, which
/// holds the value, whatever the enclosing frames bind.
pub proof fn lemma_local_assignment_shadows(
    scopes: ScopesModel,
    memory: MemoryModel,
    name: Seq<char>,
    scope: RegIndex,
    value: ValueModel,
)
    requires
        scopes.frames.contains_key(scope),
        memory.counter < usize::MAX,
    ensures
        ({
            let assigned = assign_local(scopes, memory, name, scope, value);
            &&& lookup_binding(assigned.scopes.frames, name, scope) == Some(
                (memory.counter + 1) as RegIndex,
            )
            &&& assigned.memory.cells[(memory.counter + 1) as RegIndex] == value
        }),
{
}

/// Whether two arenas hold the same frames up to the callers: the same
/// handles, and under each the same parent and the same bindings.
pub open spec fn same_but_callers(
    a: Map<RegIndex, ScopeModel>,
    b: Map<RegIndex, ScopeModel>,
) -> bool {
    &&& a.dom() == b.dom()
    &&& forall|s: RegIndex| #[trigger]
        a.contains_key(s) ==> a[s].parent_id == b[s].parent_id && a[s].vars == b[s].vars
}

/// Lookup is lexical: a name resolves along the parent links alone, so
/// that no caller of any frame has a say in what a name resolves to.
pub proof fn lemma_lookup_ignores_callers(
    a: Map<RegIndex, ScopeModel>,
    b: Map<RegIndex, ScopeModel>,
    name: Seq<char>,
    scope: RegIndex,
)
    requires
        same_but_callers(a, b),
    ensures
        lookup_binding(a, name, scope) == lookup_binding(b, name, scope),
    decreases scope,
{
    if a.contains_key(scope) {
        assert(b.contains_key(scope));
        if !a[scope].vars.contains_key(name) {
            match a[scope].parent_id {
                Some(parent) => {
                    if parent < scope {
                        lemma_lookup_ignores_callers(a, b, name, parent);
                    }
                },
                None => {},
            }
        }
    } else {
        assert(!b.contains_key(scope));
    }
}

/// A function runs in the frame it captured: a call of a function without
/// parameters evaluates the body in a fresh frame whose parent is the frame
/// that the function captured and whose caller is the frame of the call, so
/// that every name in the body resolves as it does from the captured frame.
pub proof fn lemma_call_runs_below_the_captured_frame(
    stack: Seq<FrameModel>,
    memory: MemoryModel,
    scopes: ScopesModel,
    code: NodeModel,
    captured: RegIndex,
    scope: RegIndex,
    name: Seq<char>,
)
    requires
        scopes.counter < usize::MAX,
        captured <= scopes.counter,
        scopes.frames.contains_key(captured),
        scopes.frames.contains_key(scope),
        !scopes.frames.contains_key((scopes.counter + 1) as RegIndex),
    ensures
        ({
            let callee = ValueModel::Function {
                arg_names: Seq::empty(),
                code: Box::new(code),
                scope_id: captured,
            };
            let after = call(stack, memory, scopes, callee, Seq::empty(), scope).machine;
            let run = (scopes.counter + 1) as RegIndex;
            &&& after.control == (ControlModel::Eval { node: code, scope: run })
            &&& after.scopes.frames[run].parent_id == Some(captured)
            &&& after.scopes.frames[run].caller_id == Some(scope)
            &&& lookup_binding(after.scopes.frames, name, run) == lookup_binding(
                scopes.frames,
                name,
                captured,
            )
        }),
{
    let derived = scopes.derive(captured, scope);
    let run = (scopes.counter + 1) as RegIndex;
    lemma_frames_below_are_kept(scopes.frames, derived.frames, name, captured, run);
}

proof fn lemma_frames_below_are_kept(
    before: Map<RegIndex, ScopeModel>,
    after: Map<RegIndex, ScopeModel>,
    name: Seq<char>,
    from: RegIndex,
    fresh: RegIndex,
)
    requires
        from < fresh,
        forall|s: RegIndex| #[trigger]
            before.contains_key(s) && s < fresh ==> after.contains_key(s) && after[s]
                == before[s],
        forall|s: RegIndex| #[trigger] after.contains_key(s) && s < fresh ==> before.contains_key(s),
    ensures
        lookup_binding(after, name, from) == lookup_binding(before, name, from),
    decreases from,
{
    if before.contains_key(from) && !before[from].vars.contains_key(name) {
        match before[from].parent_id {
            Some(parent) => {
                if parent < from {
                    lemma_frames_below_are_kept(before, after, name, parent, fresh);
                }
            },
            None => {},
        }
    }
}

/// Printing ends on a cycle: an array whose only element is a cell that
/// holds an equal array prints as `[[...]]`, whatever else the heap holds.
pub proof fn lemma_self_containing_array_prints_finitely(
    cells: Map<RegIndex, ValueModel>,
    h: RegIndex,
    depth: nat,
)
    requires
        cells.contains_key(h),
        cells[h] == ValueModel::Array(seq![h]),
        depth > 0,
    ensures
        print_form(ValueModel::Array(seq![h]), cells, Seq::empty(), depth) == text("["@) + text(
            "[...]"@,
        ) + text("]"@),
{
    let array = ValueModel::Array(seq![h]);
    let around = Seq::<ValueModel>::empty().push(array);
    assert(!is_visited(array, cells, Seq::empty()));
    assert(equal_within(around[0], array, cells, cells.dom().len())) by {
        assert(seq![h][0] == h);
    }
    assert(is_visited(array, cells, around));
    assert(print_form(array, cells, around, (depth - 1) as nat) == text("[...]"@));
    assert(print_elements(seq![h], 1, cells, around, depth) =~= Seq::empty());
    let elements = print_elements(seq![h], 0, cells, around, depth);
    assert(elements =~= text("[...]"@));
}

/// Indexing writes through: a write, of a value whose references resolve,
/// to the target that a position of an array resolves to is seen through
/// every array that holds the same cell at any of its positions.
pub proof fn lemma_index_writes_through(
    scopes: ScopesModel,
    memory: MemoryModel,
    handles: Seq<RegIndex>,
    number: u64,
    value: ValueModel,
    scope: RegIndex,
    sharing: Seq<RegIndex>,
    position: u64,
)
    requires
        element_target(ValueModel::Array(handles), number) is Ok,
        element_target(ValueModel::Array(sharing), position) == element_target(
            ValueModel::Array(handles),
            number,
        ),
        element(ValueModel::Array(handles), number, memory.cells) is Ok,
        resolves(value, memory, scopes),
    ensures
        ({
            let target = element_target(ValueModel::Array(handles), number)->Ok_0;
            let written = store(scopes, memory, target, value, scope);
            &&& written.error is None
            &&& element(ValueModel::Array(sharing), position, written.memory.cells) == Ok::<
                ValueModel,
                ErrorModel,
            >(value)
            &&& element(ValueModel::Array(handles), number, written.memory.cells) == Ok::<
                ValueModel,
                ErrorModel,
            >(value)
        }),
{
    reveal(resolves);
}

/// A string can be indexed and not written: a position inside it resolves
/// to its character, and a write to that target raises an error and
/// changes nothing.
pub proof fn lemma_string_index_is_read_only(
    scopes: ScopesModel,
    memory: MemoryModel,
    text: Seq<char>,
    number: u64,
    value: ValueModel,
    scope: RegIndex,
)
    requires
        index_of(number, text.len() as usize) is Some,
    ensures
        ({
            let i = index_of(number, text.len() as usize)->0 as int;
            let target = element_target(ValueModel::String(text), number);
            &&& element(ValueModel::String(text), number, memory.cells) == Ok::<
                ValueModel,
                ErrorModel,
            >(ValueModel::String(seq![text[i]]))
            &&& target is Ok
            &&& store(scopes, memory, target->Ok_0, value, scope) == (Applied {
                scopes,
                memory,
                error: Some(failure("cannot assign to string index"@)),
            })
        }),
{
}

/// The connectives cut short: when the left operand of `&&` is false, or
/// that of `||` is true, the node yields that truth value at once, whatever
/// the right operand is, and the right operand is never evaluated.
pub proof fn lemma_connectives_cut_short(
    stack: Seq<FrameModel>,
    memory: MemoryModel,
    scopes: ScopesModel,
    right: NodeModel,
    scope: RegIndex,
)
    ensures
        after_first(stack, memory, scopes, Token::And, right, scope, ValueModel::Bool(false))
            == finish(stack, memory, scopes, ValueModel::Bool(false)),
        after_first(stack, memory, scopes, Token::Or, right, scope, ValueModel::Bool(true))
            == finish(stack, memory, scopes, ValueModel::Bool(true)),
{
}

/// The sum of the shares of the spreads before `upto`.
pub open spec fn shares_before(spare: nat, spreads: nat, upto: nat) -> nat
    decreases upto,
{
    if upto == 0 {
        0
    } else {
        shares_before(spare, spreads, (upto - 1) as nat) + spread_share(
            spare,
            spreads,
            (upto - 1) as nat,
        )
    }
}

proof fn lemma_shares_before(spare: nat, spreads: nat, upto: nat)
    requires
        spreads > 0,
        upto <= spreads,
    ensures
        shares_before(spare, spreads, upto) == upto * (spare / spreads) + if upto < spare
            % spreads {
            upto
        } else {
            spare % spreads
        },
    decreases upto,
{
    if upto > 0 {
        lemma_shares_before(spare, spreads, (upto - 1) as nat);
        let share = spare / spreads;
        assert(upto * share == (upto - 1) * share + share) by (nonlinear_arith);
    } else {
        let share = spare / spreads;
        assert(0 * share == 0) by (nonlinear_arith);
    }
}

/// The spreads share what is left for them: the shares of all spreads add
/// up to the number of spare items, an earlier spread never receives less
/// than a later one, and no two shares differ by more than one.
pub proof fn lemma_spread_distribution(spare: nat, spreads: nat, i: nat, j: nat)
    requires
        spreads > 0,
        i <= j < spreads,
    ensures
        shares_before(spare, spreads, spreads) == spare,
        spread_share(spare, spreads, j) <= spread_share(spare, spreads, i) <= spread_share(
            spare,
            spreads,
            j,
        ) + 1,
{
    lemma_shares_before(spare, spreads, spreads);
    let share = spare / spreads;
    let extra = spare % spreads;
    assert(spare == spreads * share + extra) by (nonlinear_arith)
        requires
            spreads > 0,
            share == spare / spreads,
            extra == spare % spreads,
    ;
}

/// Whether no pattern is itself an array pattern.
pub open spec fn flat(patterns: Seq<NodeModel>) -> bool {
    forall|i: int| 0 <= i < patterns.len() ==> !(#[trigger] patterns[i] is Array)
}

/// The items that the entries of a plan receive, in order.
pub open spec fn received(entries: Seq<(NodeModel, SourceModel)>) -> Seq<RegIndex>
    decreases entries.len(),
{
    if entries.len() == 0 {
        Seq::empty()
    } else {
        match entries[0].1 {
            SourceModel::Single(h) => seq![h] + received(entries.subrange(1, entries.len() as int)),
            SourceModel::Spread(handles) => handles + received(
                entries.subrange(1, entries.len() as int),
            ),
        }
    }
}

/// The number of spreads among the patterns from position `at` on.
pub open spec fn spreads_from(patterns: Seq<NodeModel>, at: int) -> nat
    decreases patterns.len() - at,
{
    if at < 0 || at >= patterns.len() {
        0
    } else {
        spreads_from(patterns, at + 1) + if is_spread(patterns[at]) {
            1nat
        } else {
            0nat
        }
    }
}

proof fn lemma_spreads_split(patterns: Seq<NodeModel>, i: int)
    requires
        0 <= i <= patterns.len(),
    ensures
        count_spreads(patterns.take(i)) + spreads_from(patterns, i) == count_spreads(patterns),
        spreads_from(patterns, i) <= patterns.len() - i,
    decreases patterns.len() - i,
{
    if i < patterns.len() {
        lemma_spreads_split(patterns, i + 1);
        crate::evaluator::destructure::lemma_count_spreads_step(patterns, i);
    } else {
        assert(patterns.take(i) =~= patterns);
    }
}

proof fn lemma_shares_bounded(spare: nat, spreads: nat, upto: nat)
    requires
        spreads > 0,
        upto < spreads,
    ensures
        shares_before(spare, spreads, upto) + spread_share(spare, spreads, upto) <= spare,
        shares_before(spare, spreads, spreads) == spare,
{
    lemma_shares_before(spare, spreads, upto + 1);
    lemma_shares_before(spare, spreads, spreads);
    let share = spare / spreads;
    let extra = spare % spreads;
    assert(spare == spreads * share + extra) by (nonlinear_arith)
        requires
            spreads > 0,
            share == spare / spreads,
            extra == spare % spreads,
    ;
    assert((upto + 1) * share <= spreads * share) by (nonlinear_arith)
        requires
            upto + 1 <= spreads,
            share >= 0,
    ;
}

proof fn lemma_plan_from_covers(
    patterns: Seq<NodeModel>,
    at: int,
    handles: Seq<RegIndex>,
    pos: int,
    spread: nat,
    spare: nat,
    spreads: nat,
    cells: Map<RegIndex, ValueModel>,
)
    requires
        flat(patterns),
        0 <= at <= patterns.len(),
        0 <= pos <= handles.len(),
        spread + spreads_from(patterns, at) == spreads,
        spreads == 0 ==> spare == 0,
        pos + (patterns.len() - at - spreads_from(patterns, at)) + (spare - shares_before(
            spare,
            spreads,
            spread,
        )) == handles.len(),
    ensures
        plan_from(patterns, at, handles, pos, spread, spare, spreads, cells) is Ok,
        plan_from(patterns, at, handles, pos, spread, spare, spreads, cells)->Ok_0.len()
            == patterns.len() - at,
        received(plan_from(patterns, at, handles, pos, spread, spare, spreads, cells)->Ok_0)
            == handles.subrange(pos, handles.len() as int),
    decreases patterns.len() - at,
{
    lemma_spreads_split(patterns, at);
    if spreads > 0 {
        lemma_shares_bounded(spare, spreads, 0);
    }
    if at >= patterns.len() {
        assert(handles.subrange(pos, handles.len() as int) =~= Seq::empty());
    } else {
        lemma_spreads_split(patterns, at + 1);
        let whole = plan_from(patterns, at, handles, pos, spread, spare, spreads, cells);
        if is_spread(patterns[at]) {
            let share = spread_share(spare, spreads, spread);
            assert(spreads_from(patterns, at) == spreads_from(patterns, at + 1) + 1);
            lemma_shares_bounded(spare, spreads, spread);
            assert(shares_before(spare, spreads, spread + 1) == shares_before(
                spare,
                spreads,
                spread,
            ) + share);
            assert(pos + share <= handles.len());
            lemma_plan_from_covers(
                patterns,
                at + 1,
                handles,
                pos + share,
                spread + 1,
                spare,
                spreads,
                cells,
            );
            let rest = plan_from(
                patterns,
                at + 1,
                handles,
                pos + share,
                spread + 1,
                spare,
                spreads,
                cells,
            )->Ok_0;
            let entry = (*patterns[at]->Unary_value, SourceModel::Spread(
                handles.subrange(pos, pos + share),
            ));
            assert(whole == Ok::<Seq<(NodeModel, SourceModel)>, ErrorModel>(seq![entry] + rest));
            let entries = seq![entry] + rest;
            assert(entries.subrange(1, entries.len() as int) =~= rest);
            assert(handles.subrange(pos, pos + share) + handles.subrange(
                pos + share,
                handles.len() as int,
            ) =~= handles.subrange(pos, handles.len() as int));
        } else {
            assert(!(patterns[at] is Array));
            assert(spreads_from(patterns, at) == spreads_from(patterns, at + 1));
            if spreads > 0 {
                if spread < spreads {
                    lemma_shares_bounded(spare, spreads, spread);
                } else {
                    lemma_shares_bounded(spare, spreads, 0);
                }
            }
            assert(pos + 1 <= handles.len());
            lemma_plan_from_covers(
                patterns,
                at + 1,
                handles,
                pos + 1,
                spread,
                spare,
                spreads,
                cells,
            );
            let rest = plan_from(
                patterns,
                at + 1,
                handles,
                pos + 1,
                spread,
                spare,
                spreads,
                cells,
            )->Ok_0;
            let entry = (patterns[at], SourceModel::Single(handles[pos]));
            assert(whole == Ok::<Seq<(NodeModel, SourceModel)>, ErrorModel>(seq![entry] + rest));
            let entries = seq![entry] + rest;
            assert(entries.subrange(1, entries.len() as int) =~= rest);
            assert(seq![handles[pos]] + handles.subrange(pos + 1, handles.len() as int)
                =~= handles.subrange(pos, handles.len() as int));
        }
    }
}

/// Destructuring distributes every item: for patterns none of which is
/// itself an array, a plan exists exactly when the lengths fit, which
/// without a spread means as many items as patterns and with spreads at
/// least one item for every other pattern. The plan then has one entry for
/// every pattern, and what the entries receive, read from left to right, is
/// the items in their order: none is lost, repeated or moved.
pub proof fn lemma_destructuring_covers_the_items(
    patterns: Seq<NodeModel>,
    handles: Seq<RegIndex>,
    cells: Map<RegIndex, ValueModel>,
)
    requires
        flat(patterns),
    ensures
        plan(patterns, handles, cells) is Ok <==> if count_spreads(patterns) == 0 {
            patterns.len() == handles.len()
        } else {
            handles.len() >= patterns.len() - count_spreads(patterns)
        },
        plan(patterns, handles, cells) is Ok ==> plan(patterns, handles, cells)->Ok_0.len()
            == patterns.len() && received(plan(patterns, handles, cells)->Ok_0) == handles,
{
    let spreads = count_spreads(patterns);
    lemma_spreads_split(patterns, 0);
    assert(patterns.take(0) =~= Seq::empty());
    let fits = if spreads == 0 {
        patterns.len() == handles.len()
    } else {
        handles.len() >= patterns.len() - spreads
    };
    if fits {
        let spare = (handles.len() - (patterns.len() - spreads)) as nat;
        lemma_plan_from_covers(patterns, 0, handles, 0, 0, spare, spreads, cells);
        assert(handles.subrange(0, handles.len() as int) =~= handles);
    }
}

/// A collection keeps what is rooted and what the kept refers to: the
/// current frame and every protected cell survive, and whatever a survivor
/// refers to survives with it, so that a collection leaves no reference
/// dangling that was not dangling before. A survivor is unchanged.
pub proof fn lemma_collection_keeps_reachable(
    memory: MemoryModel,
    scopes: ScopesModel,
    scope: RegIndex,
    n: Node,
    m: Node,
)
    requires
        live_nodes(memory, scopes).contains(n),
        live_nodes(memory, scopes).contains(m),
    ensures
        gc_roots(memory, scope).contains(n) ==> survives(memory, scopes, scope, n),
        survives(memory, scopes, scope, n) && edge(memory, scopes, n, m) ==> survives(
            memory,
            scopes,
            scope,
            m,
        ),
        n is Cell && survives(memory, scopes, scope, n) ==> memory.collected(
            scopes,
            scope,
        ).cells.contains_key(n->Cell_0) && memory.collected(scopes, scope).cells[n->Cell_0]
            == memory.cells[n->Cell_0],
        n is Frame && survives(memory, scopes, scope, n) ==> scopes.collected(
            memory,
            scope,
        ).frames.contains_key(n->Frame_0) && scopes.collected(memory, scope).frames[n->Frame_0]
            == scopes.frames[n->Frame_0],
{
    let live = live_nodes(memory, scopes);
    let roots = gc_roots(memory, scope);
    if roots.contains(n) {
        crate::interpreter::collector::lemma_root_reaches(memory, scopes, live, roots, n);
    }
    if survives(memory, scopes, scope, n) && edge(memory, scopes, n, m) {
        crate::interpreter::collector::lemma_reaches_step(memory, scopes, live, roots, n, m);
    }
}

/// Storing keeps the heap closed: a value whose references resolve can be
/// put into a fresh cell, or into a live one in place of what it held,
/// without leaving a reference dangling.
pub proof fn lemma_storing_keeps_the_heap_closed(
    memory: MemoryModel,
    scopes: ScopesModel,
    value: ValueModel,
    id: RegIndex,
)
    requires
        closed(memory, scopes),
        resolves(value, memory, scopes),
        memory.counter < usize::MAX,
    ensures
        closed(memory.add(value), scopes),
        closed(memory.protect(value), scopes),
        memory.cells.contains_key(id) ==> closed(memory.set(value, id), scopes),
{
    reveal(closed);
    reveal(resolves);
    let added = memory.add(value);
    assert forall|n: Node, m: Node|
        live_nodes(added, scopes).contains(n) && #[trigger] edge(
            added,
            scopes,
            n,
            m,
        ) implies live_nodes(added, scopes).contains(m) by {
        if n == Node::Cell(added.counter) {
            assert(refers(value, m));
            assert(live_nodes(memory, scopes).contains(m));
        } else {
            assert(live_nodes(memory, scopes).contains(n));
            assert(edge(memory, scopes, n, m));
            assert(live_nodes(memory, scopes).contains(m));
        }
    }
    let kept = memory.protect(value);
    assert forall|n: Node, m: Node|
        live_nodes(kept, scopes).contains(n) && #[trigger] edge(
            kept,
            scopes,
            n,
            m,
        ) implies live_nodes(kept, scopes).contains(m) by {
        assert(kept.cells == added.cells);
        assert(live_nodes(added, scopes).contains(n));
        assert(edge(added, scopes, n, m));
        assert(live_nodes(added, scopes).contains(m));
    }
    if memory.cells.contains_key(id) {
        let written = memory.set(value, id);
        assert forall|n: Node, m: Node|
            live_nodes(written, scopes).contains(n) && #[trigger] edge(
                written,
                scopes,
                n,
                m,
            ) implies live_nodes(written, scopes).contains(m) by {
            assert(live_nodes(memory, scopes).contains(n));
            if n == Node::Cell(id) {
                assert(refers(value, m));
                assert(live_nodes(memory, scopes).contains(m));
            } else {
                assert(edge(memory, scopes, n, m));
                assert(live_nodes(memory, scopes).contains(m));
            }
        }
    }
}

/// Binding and deriving keep the heap closed: a live cell can be bound in a
/// live frame, and a frame can be derived from live frames, without leaving
/// a reference dangling.
pub proof fn lemma_frames_keep_the_heap_closed(
    memory: MemoryModel,
    scopes: ScopesModel,
    scope: RegIndex,
    name: Seq<char>,
    id: RegIndex,
    caller: RegIndex,
)
    requires
        closed(memory, scopes),
        scopes.frames.contains_key(scope),
    ensures
        memory.cells.contains_key(id) ==> closed(memory, scopes.bind(scope, name, id)),
        scopes.frames.contains_key(caller) && scopes.counter < usize::MAX ==> closed(
            memory,
            scopes.derive(scope, caller),
        ),
{
    reveal(closed);
    if memory.cells.contains_key(id) {
        let bound = scopes.bind(scope, name, id);
        assert forall|n: Node, m: Node|
            live_nodes(memory, bound).contains(n) && #[trigger] edge(
                memory,
                bound,
                n,
                m,
            ) implies live_nodes(memory, bound).contains(m) by {
            assert(live_nodes(memory, scopes).contains(n));
            match n {
                Node::Frame(s) => {
                    if s == scope {
                        match m {
                            Node::Cell(h) => {
                                if h != id {
                                    let key = choose|key: Seq<char>|
                                        bound.frames[s].vars.contains_key(key)
                                            && bound.frames[s].vars[key] == h;
                                    assert(scopes.frames[s].vars.contains_key(key));
                                    assert(scopes.frames[s].vars[key] == h);
                                    assert(edge(memory, scopes, n, m));
                                }
                            },
                            Node::Frame(t) => {
                                assert(edge(memory, scopes, n, m));
                            },
                        }
                    } else {
                        assert(edge(memory, scopes, n, m));
                    }
                },
                Node::Cell(h) => {
                    assert(edge(memory, scopes, n, m));
                },
            }
            if m != Node::Cell(id) {
                assert(live_nodes(memory, scopes).contains(m));
            }
        }
    }
    if scopes.frames.contains_key(caller) && scopes.counter < usize::MAX {
        let derived = scopes.derive(scope, caller);
        assert forall|n: Node, m: Node|
            live_nodes(memory, derived).contains(n) && #[trigger] edge(
                memory,
                derived,
                n,
                m,
            ) implies live_nodes(memory, derived).contains(m) by {
            if n == Node::Frame(derived.counter) {
                match m {
                    Node::Cell(h) => {
                        assert(!derived.frames[derived.counter].vars.contains_value(h));
                    },
                    Node::Frame(t) => {},
                }
            } else {
                assert(live_nodes(memory, scopes).contains(n));
                assert(edge(memory, scopes, n, m));
                assert(live_nodes(memory, scopes).contains(m));
            }
        }
    }
}

/// A collection leaves no reference dangling: if every reference resolved
/// before the collection, every reference resolves after it.
pub proof fn lemma_collection_keeps_the_heap_closed(
    memory: MemoryModel,
    scopes: ScopesModel,
    scope: RegIndex,
)
    requires
        closed(memory, scopes),
    ensures
        closed(memory.collected(scopes, scope), scopes.collected(memory, scope)),
{
    reveal(closed);
    let kept = memory.collected(scopes, scope);
    let arena = scopes.collected(memory, scope);
    assert forall|n: Node, m: Node|
        live_nodes(kept, arena).contains(n) && #[trigger] edge(
            kept,
            arena,
            n,
            m,
        ) implies live_nodes(kept, arena).contains(m) by {
        assert(live_nodes(memory, scopes).contains(n));
        assert(survives(memory, scopes, scope, n));
        assert(edge(memory, scopes, n, m));
        assert(live_nodes(memory, scopes).contains(m));
        lemma_collection_keeps_reachable(memory, scopes, scope, n, m);
        assert(survives(memory, scopes, scope, m));
    }
}

/// A collection removes exactly the garbage: a live cell is gone after the
/// collection if and only if no chain of references leads to it from the
/// current frame or from a protected cell. The population never grows, and
/// it shrinks whenever there is garbage.
pub proof fn lemma_collection_removes_garbage(
    memory: MemoryModel,
    scopes: ScopesModel,
    scope: RegIndex,
    h: RegIndex,
)
    requires
        memory.cells.dom().finite(),
        memory.cells.contains_key(h),
    ensures
        memory.collected(scopes, scope).cells.contains_key(h) <==> survives(
            memory,
            scopes,
            scope,
            Node::Cell(h),
        ),
        memory.collected(scopes, scope).cells.dom().len() <= memory.cells.dom().len(),
        !survives(memory, scopes, scope, Node::Cell(h)) ==> memory.collected(
            scopes,
            scope,
        ).cells.dom().len() < memory.cells.dom().len(),
{
    let after = memory.collected(scopes, scope).cells.dom();
    let before = memory.cells.dom();
    assert(after.subset_of(before));
    vstd::set_lib::lemma_len_subset(after, before);
    if !survives(memory, scopes, scope, Node::Cell(h)) {
        assert(after.subset_of(before.remove(h)));
        vstd::set_lib::lemma_len_subset(after, before.remove(h));
    }
}

/// The number of waiting nodes that own a protected frame.
pub open spec fn owners(stack: Seq<FrameModel>) -> nat
    decreases stack.len(),
{
    if stack.len() == 0 {
        0
    } else {
        owners(stack.drop_last()) + if owns_protected(stack.last()) {
            1nat
        } else {
            0nat
        }
    }
}

/// Whether the protected frames and the waiting nodes match: one protected
/// frame for every node that owns one.
pub open spec fn balanced(machine: Machine) -> bool {
    machine.memory.protected.len() == owners(machine.stack)
}

proof fn lemma_owners_push(stack: Seq<FrameModel>, frame: FrameModel)
    ensures
        owners(stack.push(frame)) == owners(stack) + if owns_protected(frame) {
            1nat
        } else {
            0nat
        },
{
    assert(stack.push(frame).drop_last() =~= stack);
}

proof fn lemma_store_keeps_frames(
    scopes: ScopesModel,
    memory: MemoryModel,
    target: crate::evaluator::TargetModel,
    value: ValueModel,
    scope: RegIndex,
)
    ensures
        store(scopes, memory, target, value, scope).memory.protected == memory.protected,
{
}

proof fn lemma_apply_all_keeps_frames(
    scopes: ScopesModel,
    memory: MemoryModel,
    plan: Seq<(NodeModel, crate::evaluator::SourceModel)>,
    targets: Seq<crate::evaluator::TargetModel>,
    scope: RegIndex,
    from: int,
)
    ensures
        apply_all(scopes, memory, plan, targets, scope, from).memory.protected
            == memory.protected,
    decreases plan.len() - from,
{
    if !(from < 0 || from >= plan.len() || from >= targets.len()) {
        match crate::evaluator::semantics::source_value(plan[from].1, memory.cells) {
            None => {},
            Some(value) => {
                let written = store(scopes, memory, targets[from], value, scope);
                lemma_store_keeps_frames(scopes, memory, targets[from], value, scope);
                if written.error is None {
                    lemma_apply_all_keeps_frames(
                        written.scopes,
                        written.memory,
                        plan,
                        targets,
                        scope,
                        from + 1,
                    );
                }
            },
        }
    }
}

proof fn lemma_bind_args_keeps_frames(
    scopes: ScopesModel,
    memory: MemoryModel,
    names: Seq<Seq<char>>,
    values: Seq<ValueModel>,
    run: RegIndex,
    from: int,
)
    ensures
        bind_args(scopes, memory, names, values, run, from).memory.protected == memory.protected,
    decreases names.len() - from,
{
    reveal(resolves);
    if !(from < 0 || from >= names.len() || from >= values.len()) && memory.counter
        != usize::MAX && resolves(values[from], memory, scopes) {
        let assigned = assign_local(scopes, memory, names[from], run, values[from]);
        if assigned.done {
            lemma_bind_args_keeps_frames(
                assigned.scopes,
                assigned.memory,
                names,
                values,
                run,
                from + 1,
            );
        }
    }
}

proof fn lemma_complete_pops(
    stack: Seq<FrameModel>,
    memory: MemoryModel,
    scopes: ScopesModel,
    outcome: Result<crate::value::ComputedModel, ErrorModel>,
    store: Option<RegIndex>,
)
    requires
        memory.protected.len() == owners(stack) + 1,
    ensures
        balanced(complete(stack, memory, scopes, outcome, store).machine),
{
}

proof fn lemma_call_keeps_balance(
    stack: Seq<FrameModel>,
    memory: MemoryModel,
    scopes: ScopesModel,
    callee: ValueModel,
    values: Seq<ValueModel>,
    scope: RegIndex,
)
    requires
        memory.protected.len() == owners(stack) + 1,
    ensures
        balanced(call(stack, memory, scopes, callee, values, scope).machine),
{
    match callee {
        ValueModel::Builtin(name) => {
            lemma_complete_pops(stack, memory, scopes, values[0].sin(), None);
            lemma_complete_pops(stack, memory, scopes, values[0].cos(), None);
            lemma_complete_pops(stack, memory, scopes, values[0].tan(), None);
            lemma_complete_pops(
                stack,
                memory,
                scopes,
                crate::evaluator::semantics::lift(values[0].len()),
                None,
            );
        },
        ValueModel::Function { arg_names, code, scope_id } => {
            let derived = scopes.derive(scope_id, scope);
            lemma_bind_args_keeps_frames(derived, memory, arg_names, values, derived.counter, 0);
            lemma_owners_push(stack, FrameModel::Pass { protect: false });
        },
        _ => {},
    }
}

proof fn lemma_otherwise_keeps_balance(
    stack: Seq<FrameModel>,
    memory: MemoryModel,
    scopes: ScopesModel,
    if_none: Option<NodeModel>,
    scope: RegIndex,
)
    requires
        memory.protected.len() == owners(stack) + 1,
    ensures
        balanced(otherwise(stack, memory, scopes, if_none, scope).machine),
{
    lemma_owners_push(stack, FrameModel::Pass { protect: true });
}

proof fn lemma_eval_keeps_balance(
    stack: Seq<FrameModel>,
    memory: MemoryModel,
    scopes: ScopesModel,
    node: NodeModel,
    scope: RegIndex,
)
    requires
        memory.protected.len() == owners(stack),
    ensures
        balanced(eval(stack, memory, scopes, node, scope).machine),
{
    let kept = if memory.over_threshold() {
        memory.collected(scopes, scope)
    } else {
        memory
    };
    let arena = if memory.over_threshold() {
        scopes.collected(memory, scope)
    } else {
        scopes
    };
    let entered = kept.new_protected();
    match node {
        NodeModel::Value { value } => {
            lemma_owners_push(stack, FrameModel::Pass { protect: true });
        },
        NodeModel::Block { code } => {
            lemma_owners_push(stack, FrameModel::Pass { protect: true });
        },
        NodeModel::Unary { op, value } => {
            lemma_owners_push(stack, FrameModel::Unary { op });
        },
        NodeModel::Op { left, op, right } => {
            lemma_owners_push(stack, FrameModel::First { op, other: *right, scope });
            lemma_owners_push(stack, FrameModel::First { op, other: *left, scope });
        },
        NodeModel::StatementList { statements } => {
            lemma_owners_push(stack, FrameModel::Statements { statements, next: 1, scope });
        },
        NodeModel::If { conds, if_none } => {
            let else_branch = match if_none {
                Some(n) => Some(*n),
                None => None,
            };
            lemma_otherwise_keeps_balance(stack, entered, arena, else_branch, scope);
            lemma_owners_push(
                stack,
                FrameModel::IfCond { conds, index: 0, if_none: else_branch, scope },
            );
        },
        NodeModel::While { cond, code } => {
            lemma_owners_push(
                stack,
                FrameModel::WhileCond { cond: *cond, code: *code, last: ValueModel::Null, scope },
            );
        },
        NodeModel::Call { base, args } => {
            lemma_owners_push(stack, FrameModel::CallBase { args, scope });
        },
        NodeModel::Array { values } => {
            lemma_owners_push(
                stack,
                FrameModel::ArrayItems { items: values, ids: Seq::empty(), scope },
            );
        },
        NodeModel::Index { base, index } => {
            lemma_owners_push(stack, FrameModel::IndexIdx { base: *base, scope, lvalue: false });
        },
        _ => {},
    }
}

proof fn lemma_after_first_keeps_balance(
    stack: Seq<FrameModel>,
    memory: MemoryModel,
    scopes: ScopesModel,
    op: Token,
    other: NodeModel,
    scope: RegIndex,
    value: ValueModel,
)
    requires
        memory.protected.len() == owners(stack) + 1,
    ensures
        balanced(after_first(stack, memory, scopes, op, other, scope, value).machine),
{
    lemma_owners_push(stack, FrameModel::Second { op, first: value, scope });
    lemma_owners_push(stack, FrameModel::Target { op, right: value, scope });
    if op is Assign && other is Array {
        match value {
            ValueModel::Array(handles) => {
                match crate::evaluator::semantics::plan(other->values, handles, memory.cells) {
                    Ok(entries) => {
                        lemma_owners_push(
                            stack,
                            FrameModel::Destructure {
                                plan: entries,
                                targets: Seq::empty(),
                                right: value,
                                scope,
                            },
                        );
                    },
                    Err(_) => {},
                }
            },
            _ => {},
        }
    }
}

proof fn lemma_deliver_keeps_balance(
    stack: Seq<FrameModel>,
    memory: MemoryModel,
    scopes: ScopesModel,
    frame: FrameModel,
    value: ValueModel,
)
    requires
        memory.protected.len() == owners(stack) + if owns_protected(frame) {
            1nat
        } else {
            0nat
        },
    ensures
        balanced(deliver(stack, memory, scopes, frame, value).machine),
{
    let kept = memory.protect(value);
    if crate::evaluator::semantics::has_room(memory) {
        assert(kept.protected.len() == memory.protected.len());
        match frame {
            FrameModel::Unary { op } => {
                lemma_complete_pops(
                    stack,
                    kept,
                    scopes,
                    crate::evaluator::semantics::lift(crate::evaluator::semantics::unary(op, value)),
                    None,
                );
            },
            FrameModel::First { op, other, scope } => {
                lemma_after_first_keeps_balance(stack, kept, scopes, op, other, scope, value);
            },
            FrameModel::Second { op, first, scope } => {
                lemma_complete_pops(
                    stack,
                    kept,
                    scopes,
                    crate::evaluator::semantics::binary(op, first, value, kept.cells),
                    None,
                );
            },
            FrameModel::Statements { statements, next, scope } => {
                lemma_owners_push(
                    stack,
                    FrameModel::Statements { statements, next: (next + 1) as usize, scope },
                );
            },
            FrameModel::IfCond { conds, index, if_none, scope } => {
                lemma_owners_push(
                    stack,
                    FrameModel::IfCond { conds, index: (index + 1) as usize, if_none, scope },
                );
                lemma_otherwise_keeps_balance(stack, kept, scopes, if_none, scope);
            },
            FrameModel::WhileCond { cond, code, last, scope } => {
                lemma_owners_push(stack, FrameModel::WhileBody { cond, code, scope });
            },
            FrameModel::WhileBody { cond, code, scope } => {
                lemma_owners_push(stack, FrameModel::WhileCond { cond, code, last: value, scope });
            },
            FrameModel::CallBase { args, scope } => {
                lemma_call_keeps_balance(stack, kept, scopes, value, Seq::empty(), scope);
                lemma_owners_push(
                    stack,
                    FrameModel::CallArgs { callee: value, args, values: Seq::empty(), scope },
                );
            },
            FrameModel::CallArgs { callee, args, values, scope } => {
                lemma_call_keeps_balance(stack, kept, scopes, callee, values.push(value), scope);
                lemma_owners_push(
                    stack,
                    FrameModel::CallArgs { callee, args, values: values.push(value), scope },
                );
            },
            FrameModel::ArrayItems { items, ids, scope } => {
                lemma_owners_push(
                    stack,
                    FrameModel::ArrayItems { items, ids: ids.push(kept.counter), scope },
                );
            },
            FrameModel::IndexIdx { base, scope, lvalue } => {
                match value {
                    ValueModel::Number(number) => {
                        lemma_owners_push(stack, FrameModel::ResolveBase { number });
                        lemma_owners_push(stack, FrameModel::IndexBase { number });
                    },
                    _ => {},
                }
            },
            FrameModel::IndexBase { number } => {
                lemma_complete_pops(
                    stack,
                    kept,
                    scopes,
                    crate::evaluator::semantics::lift(element(value, number, kept.cells)),
                    None,
                );
            },
            _ => {},
        }
    }
}

proof fn lemma_deliver_target_keeps_balance(
    stack: Seq<FrameModel>,
    memory: MemoryModel,
    scopes: ScopesModel,
    frame: FrameModel,
    target: crate::evaluator::TargetModel,
)
    requires
        memory.protected.len() == owners(stack) + if owns_protected(frame) {
            1nat
        } else {
            0nat
        },
    ensures
        balanced(deliver_target(stack, memory, scopes, frame, target).machine),
{
    match frame {
        FrameModel::Target { op, right, scope } => {
            lemma_store_keeps_frames(scopes, memory, target, right, scope);
            match target {
                crate::evaluator::TargetModel::Id(id) => {
                    if memory.cells.contains_key(id) {
                        lemma_complete_pops(
                            stack,
                            memory,
                            scopes,
                            crate::evaluator::semantics::compound(op, memory.cells[id], right),
                            Some(id),
                        );
                    }
                },
                _ => {},
            }
        },
        FrameModel::Destructure { plan, targets, right, scope } => {
            lemma_owners_push(
                stack,
                FrameModel::Destructure { plan, targets: targets.push(target), right, scope },
            );
            lemma_apply_all_keeps_frames(scopes, memory, plan, targets.push(target), scope, 0);
        },
        _ => {},
    }
}

/// Protected frames are pushed and popped in step with the nodes: if every
/// waiting node that owns a protected frame has one before a step, the same
/// holds after it, whether the step enters a node, leaves one with a value,
/// or unwinds one with an error. An evaluation starts balanced, so it is
/// balanced throughout, and ends with no protected frame left.
pub proof fn lemma_protected_frames_stay_balanced(machine: Machine, reply: ReplyModel)
    requires
        balanced(machine),
    ensures
        balanced(step(machine, reply).machine),
        machine.control is Done ==> step(machine, reply).machine == machine,
{
    reveal(step);
    let stack = machine.stack;
    let memory = machine.memory;
    let scopes = machine.scopes;
    match machine.control {
        ControlModel::Eval { node, scope } => {
            lemma_eval_keeps_balance(stack, memory, scopes, node, scope);
        },
        ControlModel::Resolve { node, scope } => {
            match node {
                NodeModel::Index { base, index } => {
                    lemma_owners_push(
                        stack,
                        FrameModel::IndexIdx { base: *base, scope, lvalue: true },
                    );
                },
                _ => {},
            }
        },
        ControlModel::Return { value } => {
            if stack.len() > 0 {
                lemma_deliver_keeps_balance(stack.drop_last(), memory, scopes, stack.last(), value);
            }
        },
        ControlModel::Resolved { target } => {
            if stack.len() > 0 {
                lemma_deliver_target_keeps_balance(
                    stack.drop_last(),
                    memory,
                    scopes,
                    stack.last(),
                    target,
                );
            }
        },
        ControlModel::Raise { error } => {},
        ControlModel::Await { kind } => {},
        ControlModel::Done => {},
    }
}

/// An evaluation starts balanced: nothing waits, and no protected frame is
/// there.
pub proof fn lemma_start_is_balanced(node: NodeModel, memory: MemoryModel, scopes: ScopesModel)
    ensures
        balanced(crate::evaluator::semantics::start(node, memory, scopes)),
{
}

proof fn lemma_closed_depends_on_contents(
    memory: MemoryModel,
    scopes: ScopesModel,
    other: MemoryModel,
    arena: ScopesModel,
)
    requires
        closed(memory, scopes),
        other.cells == memory.cells,
        arena.frames == scopes.frames,
    ensures
        closed(other, arena),
{
    reveal(closed);
    assert forall|n: Node, m: Node|
        live_nodes(other, arena).contains(n) && #[trigger] edge(
            other,
            arena,
            n,
            m,
        ) implies live_nodes(other, arena).contains(m) by {
        assert(live_nodes(memory, scopes).contains(n));
        assert(edge(memory, scopes, n, m));
        assert(live_nodes(memory, scopes).contains(m));
    }
}

proof fn lemma_resolves_is_kept(
    value: ValueModel,
    memory: MemoryModel,
    scopes: ScopesModel,
    other: MemoryModel,
    arena: ScopesModel,
)
    requires
        resolves(value, memory, scopes),
        forall|h: RegIndex| #[trigger]
            memory.cells.contains_key(h) ==> other.cells.contains_key(h),
        forall|s: RegIndex| #[trigger]
            scopes.frames.contains_key(s) ==> arena.frames.contains_key(s),
    ensures
        resolves(value, other, arena),
{
    reveal(resolves);
    assert forall|to: Node| #[trigger] refers(value, to) implies live_nodes(other, arena).contains(
        to,
    ) by {
        assert(live_nodes(memory, scopes).contains(to));
        match to {
            Node::Cell(h) => {
                assert(memory.cells.contains_key(h));
            },
            Node::Frame(s) => {
                assert(scopes.frames.contains_key(s));
            },
        }
    }
}

proof fn lemma_atoms_resolve(value: ValueModel, memory: MemoryModel, scopes: ScopesModel)
    requires
        !(value is Array),
        !(value is Function),
    ensures
        resolves(value, memory, scopes),
{
    reveal(resolves);
}

proof fn lemma_overwriting_keeps_the_heap_closed(
    memory: MemoryModel,
    scopes: ScopesModel,
    value: ValueModel,
    id: RegIndex,
)
    requires
        closed(memory, scopes),
        resolves(value, memory, scopes),
        memory.cells.contains_key(id),
    ensures
        closed(memory.set(value, id), scopes),
{
    reveal(closed);
    reveal(resolves);
    let written = memory.set(value, id);
    assert forall|n: Node, m: Node|
        live_nodes(written, scopes).contains(n) && #[trigger] edge(
            written,
            scopes,
            n,
            m,
        ) implies live_nodes(written, scopes).contains(m) by {
        assert(live_nodes(memory, scopes).contains(n));
        if n == Node::Cell(id) {
            assert(refers(value, m));
            assert(live_nodes(memory, scopes).contains(m));
        } else {
            assert(edge(memory, scopes, n, m));
            assert(live_nodes(memory, scopes).contains(m));
        }
    }
}

proof fn lemma_local_assignment_keeps_the_heap_closed(
    scopes: ScopesModel,
    memory: MemoryModel,
    name: Seq<char>,
    scope: RegIndex,
    value: ValueModel,
)
    requires
        closed(memory, scopes),
        resolves(value, memory, scopes),
        memory.counter < usize::MAX,
    ensures
        closed(
            assign_local(scopes, memory, name, scope, value).memory,
            assign_local(scopes, memory, name, scope, value).scopes,
        ),
{
    if scopes.frames.contains_key(scope) {
        let added = memory.add(value);
        lemma_storing_keeps_the_heap_closed(memory, scopes, value, 0);
        lemma_frames_keep_the_heap_closed(added, scopes, scope, name, added.counter, scope);
    }
}

proof fn lemma_store_keeps_the_heap_closed(
    scopes: ScopesModel,
    memory: MemoryModel,
    target: crate::evaluator::TargetModel,
    value: ValueModel,
    scope: RegIndex,
)
    requires
        closed(memory, scopes),
    ensures
        closed(
            store(scopes, memory, target, value, scope).memory,
            store(scopes, memory, target, value, scope).scopes,
        ),
{
    if !(target is Deferred) && resolves(value, memory, scopes) {
        match target {
            crate::evaluator::TargetModel::Id(id) => {
                if memory.cells.contains_key(id) {
                    lemma_overwriting_keeps_the_heap_closed(memory, scopes, value, id);
                }
            },
            crate::evaluator::TargetModel::Name(name) => {
                if memory.counter != usize::MAX {
                    match lookup_binding(scopes.frames, name, scope) {
                        Some(id) => {
                            if memory.cells.contains_key(id) {
                                lemma_overwriting_keeps_the_heap_closed(memory, scopes, value, id);
                            }
                        },
                        None => {
                            lemma_local_assignment_keeps_the_heap_closed(
                                scopes,
                                memory,
                                name,
                                scope,
                                value,
                            );
                        },
                    }
                }
            },
            _ => {},
        }
    }
}

proof fn lemma_apply_all_keeps_the_heap_closed(
    scopes: ScopesModel,
    memory: MemoryModel,
    plan: Seq<(NodeModel, SourceModel)>,
    targets: Seq<crate::evaluator::TargetModel>,
    scope: RegIndex,
    from: int,
)
    requires
        closed(memory, scopes),
    ensures
        closed(
            apply_all(scopes, memory, plan, targets, scope, from).memory,
            apply_all(scopes, memory, plan, targets, scope, from).scopes,
        ),
    decreases plan.len() - from,
{
    if !(from < 0 || from >= plan.len() || from >= targets.len()) {
        match crate::evaluator::semantics::source_value(plan[from].1, memory.cells) {
            None => {},
            Some(value) => {
                let written = store(scopes, memory, targets[from], value, scope);
                lemma_store_keeps_the_heap_closed(scopes, memory, targets[from], value, scope);
                if written.error is None {
                    lemma_apply_all_keeps_the_heap_closed(
                        written.scopes,
                        written.memory,
                        plan,
                        targets,
                        scope,
                        from + 1,
                    );
                }
            },
        }
    }
}

proof fn lemma_bind_args_keeps_the_heap_closed(
    scopes: ScopesModel,
    memory: MemoryModel,
    names: Seq<Seq<char>>,
    values: Seq<ValueModel>,
    run: RegIndex,
    from: int,
)
    requires
        closed(memory, scopes),
    ensures
        closed(
            bind_args(scopes, memory, names, values, run, from).memory,
            bind_args(scopes, memory, names, values, run, from).scopes,
        ),
    decreases names.len() - from,
{
    if !(from < 0 || from >= names.len() || from >= values.len()) && memory.counter
        != usize::MAX && resolves(values[from], memory, scopes) {
        let assigned = assign_local(scopes, memory, names[from], run, values[from]);
        lemma_local_assignment_keeps_the_heap_closed(
            scopes,
            memory,
            names[from],
            run,
            values[from],
        );
        if assigned.done {
            lemma_bind_args_keeps_the_heap_closed(
                assigned.scopes,
                assigned.memory,
                names,
                values,
                run,
                from + 1,
            );
        }
    }
}

proof fn lemma_complete_keeps_the_heap_closed(
    stack: Seq<FrameModel>,
    memory: MemoryModel,
    scopes: ScopesModel,
    outcome: Result<crate::value::ComputedModel, ErrorModel>,
    store: Option<RegIndex>,
)
    requires
        closed(memory, scopes),
    ensures
        closed(
            complete(stack, memory, scopes, outcome, store).machine.memory,
            complete(stack, memory, scopes, outcome, store).machine.scopes,
        ),
{
    let after = complete(stack, memory, scopes, outcome, store).machine;
    match outcome {
        Ok(crate::value::ComputedModel::Value(value)) => {
            match store {
                Some(id) => {
                    if memory.cells.contains_key(id) && resolves(value, memory, scopes) {
                        lemma_overwriting_keeps_the_heap_closed(memory, scopes, value, id);
                        lemma_closed_depends_on_contents(
                            memory.set(value, id),
                            scopes,
                            after.memory,
                            after.scopes,
                        );
                    } else {
                        lemma_closed_depends_on_contents(memory, scopes, after.memory, after.scopes);
                    }
                },
                None => {
                    lemma_closed_depends_on_contents(memory, scopes, after.memory, after.scopes);
                },
            }
        },
        _ => {
            lemma_closed_depends_on_contents(memory, scopes, after.memory, after.scopes);
        },
    }
}

proof fn lemma_deriving_keeps_the_heap_closed(
    memory: MemoryModel,
    scopes: ScopesModel,
    parent: RegIndex,
    caller: RegIndex,
)
    requires
        closed(memory, scopes),
        crate::evaluator::semantics::can_derive(scopes, parent, caller),
    ensures
        closed(memory, scopes.derive(parent, caller)),
{
    lemma_frames_keep_the_heap_closed(memory, scopes, parent, Seq::empty(), 0, caller);
}

proof fn lemma_candidate(memory: MemoryModel, scopes: ScopesModel, after: Machine)
    requires
        closed(memory, scopes),
    ensures
        after.memory.cells == memory.cells && after.scopes.frames == scopes.frames ==> closed(
            after.memory,
            after.scopes,
        ),
{
    if after.memory.cells == memory.cells && after.scopes.frames == scopes.frames {
        lemma_closed_depends_on_contents(memory, scopes, after.memory, after.scopes);
    }
}

proof fn lemma_call_keeps_the_heap_closed(
    stack: Seq<FrameModel>,
    memory: MemoryModel,
    scopes: ScopesModel,
    callee: ValueModel,
    values: Seq<ValueModel>,
    scope: RegIndex,
)
    requires
        closed(memory, scopes),
    ensures
        closed(
            call(stack, memory, scopes, callee, values, scope).machine.memory,
            call(stack, memory, scopes, callee, values, scope).machine.scopes,
        ),
{
    let after = call(stack, memory, scopes, callee, values, scope).machine;
    lemma_candidate(memory, scopes, after);
    match callee {
        ValueModel::Builtin(name) => {
            lemma_complete_keeps_the_heap_closed(stack, memory, scopes, values[0].sin(), None);
            lemma_complete_keeps_the_heap_closed(stack, memory, scopes, values[0].cos(), None);
            lemma_complete_keeps_the_heap_closed(stack, memory, scopes, values[0].tan(), None);
            lemma_complete_keeps_the_heap_closed(
                stack,
                memory,
                scopes,
                crate::evaluator::semantics::lift(values[0].len()),
                None,
            );
            lemma_collection_keeps_the_heap_closed(memory, scopes, scope);
            lemma_candidate(
                memory.collected(scopes, scope),
                scopes.collected(memory, scope),
                after,
            );
        },
        ValueModel::Function { arg_names, code, scope_id } => {
            if arg_names.len() == values.len() && crate::evaluator::semantics::can_derive(
                scopes,
                scope_id,
                scope,
            ) {
                let derived = scopes.derive(scope_id, scope);
                lemma_deriving_keeps_the_heap_closed(memory, scopes, scope_id, scope);
                lemma_bind_args_keeps_the_heap_closed(
                    derived,
                    memory,
                    arg_names,
                    values,
                    derived.counter,
                    0,
                );
                let bound = bind_args(derived, memory, arg_names, values, derived.counter, 0);
                lemma_candidate(bound.memory, bound.scopes, after);
            }
        },
        _ => {},
    }
}

proof fn lemma_otherwise_keeps_the_heap_closed(
    stack: Seq<FrameModel>,
    memory: MemoryModel,
    scopes: ScopesModel,
    if_none: Option<NodeModel>,
    scope: RegIndex,
)
    requires
        closed(memory, scopes),
    ensures
        closed(
            otherwise(stack, memory, scopes, if_none, scope).machine.memory,
            otherwise(stack, memory, scopes, if_none, scope).machine.scopes,
        ),
{
    let after = otherwise(stack, memory, scopes, if_none, scope).machine;
    lemma_candidate(memory, scopes, after);
    if crate::evaluator::semantics::can_derive(scopes, scope, scope) {
        lemma_deriving_keeps_the_heap_closed(memory, scopes, scope, scope);
        lemma_candidate(memory, scopes.derive(scope, scope), after);
    }
}

proof fn lemma_eval_keeps_the_heap_closed(
    stack: Seq<FrameModel>,
    memory: MemoryModel,
    scopes: ScopesModel,
    node: NodeModel,
    scope: RegIndex,
)
    requires
        closed(memory, scopes),
    ensures
        closed(
            eval(stack, memory, scopes, node, scope).machine.memory,
            eval(stack, memory, scopes, node, scope).machine.scopes,
        ),
{
    let after = eval(stack, memory, scopes, node, scope).machine;
    let kept = if memory.over_threshold() {
        memory.collected(scopes, scope)
    } else {
        memory
    };
    let arena = if memory.over_threshold() {
        scopes.collected(memory, scope)
    } else {
        scopes
    };
    lemma_collection_keeps_the_heap_closed(memory, scopes, scope);
    lemma_candidate(kept, arena, after);
    if crate::evaluator::semantics::can_derive(arena, scope, scope) {
        lemma_deriving_keeps_the_heap_closed(kept, arena, scope, scope);
        lemma_candidate(kept, arena.derive(scope, scope), after);
    }
    match node {
        NodeModel::If { conds, if_none } => {
            let else_branch = match if_none {
                Some(n) => Some(*n),
                None => None,
            };
            lemma_closed_depends_on_contents(kept, arena, kept.new_protected(), arena);
            lemma_otherwise_keeps_the_heap_closed(
                stack,
                kept.new_protected(),
                arena,
                else_branch,
                scope,
            );
        },
        _ => {},
    }
}

proof fn lemma_after_first_keeps_the_heap_closed(
    stack: Seq<FrameModel>,
    memory: MemoryModel,
    scopes: ScopesModel,
    op: Token,
    other: NodeModel,
    scope: RegIndex,
    value: ValueModel,
)
    requires
        closed(memory, scopes),
        resolves(value, memory, scopes),
        memory.counter < usize::MAX,
    ensures
        closed(
            after_first(stack, memory, scopes, op, other, scope, value).machine.memory,
            after_first(stack, memory, scopes, op, other, scope, value).machine.scopes,
        ),
{
    let after = after_first(stack, memory, scopes, op, other, scope, value).machine;
    lemma_candidate(memory, scopes, after);
    match other {
        NodeModel::Var { name } => {
            lemma_local_assignment_keeps_the_heap_closed(scopes, memory, name, scope, value);
            let assigned = assign_local(scopes, memory, name, scope, value);
            lemma_candidate(assigned.memory, assigned.scopes, after);
        },
        _ => {},
    }
}

proof fn lemma_deliver_keeps_the_heap_closed(
    stack: Seq<FrameModel>,
    memory: MemoryModel,
    scopes: ScopesModel,
    frame: FrameModel,
    value: ValueModel,
)
    requires
        closed(memory, scopes),
    ensures
        closed(
            deliver(stack, memory, scopes, frame, value).machine.memory,
            deliver(stack, memory, scopes, frame, value).machine.scopes,
        ),
{
    let after = deliver(stack, memory, scopes, frame, value).machine;
    lemma_candidate(memory, scopes, after);
    if crate::evaluator::semantics::has_room(memory) && resolves(value, memory, scopes) {
        let kept = memory.protect(value);
        lemma_storing_keeps_the_heap_closed(memory, scopes, value, 0);
        lemma_resolves_is_kept(value, memory, scopes, kept, scopes);
        lemma_candidate(kept, scopes, after);
        match frame {
            FrameModel::Unary { op } => {
                lemma_complete_keeps_the_heap_closed(
                    stack,
                    kept,
                    scopes,
                    crate::evaluator::semantics::lift(crate::evaluator::semantics::unary(op, value)),
                    None,
                );
            },
            FrameModel::First { op, other, scope } => {
                lemma_after_first_keeps_the_heap_closed(
                    stack,
                    kept,
                    scopes,
                    op,
                    other,
                    scope,
                    value,
                );
            },
            FrameModel::Second { op, first, scope } => {
                lemma_complete_keeps_the_heap_closed(
                    stack,
                    kept,
                    scopes,
                    crate::evaluator::semantics::binary(op, first, value, kept.cells),
                    None,
                );
            },
            FrameModel::IfCond { conds, index, if_none, scope } => {
                if crate::evaluator::semantics::can_derive(scopes, scope, scope) {
                    lemma_deriving_keeps_the_heap_closed(kept, scopes, scope, scope);
                    lemma_candidate(kept, scopes.derive(scope, scope), after);
                }
                lemma_otherwise_keeps_the_heap_closed(stack, kept, scopes, if_none, scope);
            },
            FrameModel::WhileCond { cond, code, last, scope } => {
                if crate::evaluator::semantics::can_derive(scopes, scope, scope) {
                    lemma_deriving_keeps_the_heap_closed(kept, scopes, scope, scope);
                    lemma_candidate(kept, scopes.derive(scope, scope), after);
                }
            },
            FrameModel::CallBase { args, scope } => {
                lemma_call_keeps_the_heap_closed(stack, kept, scopes, value, Seq::empty(), scope);
            },
            FrameModel::CallArgs { callee, args, values, scope } => {
                lemma_call_keeps_the_heap_closed(
                    stack,
                    kept,
                    scopes,
                    callee,
                    values.push(value),
                    scope,
                );
            },
            FrameModel::IndexBase { number } => {
                lemma_complete_keeps_the_heap_closed(
                    stack,
                    kept,
                    scopes,
                    crate::evaluator::semantics::lift(element(value, number, kept.cells)),
                    None,
                );
            },
            _ => {},
        }
    }
}

proof fn lemma_deliver_target_keeps_the_heap_closed(
    stack: Seq<FrameModel>,
    memory: MemoryModel,
    scopes: ScopesModel,
    frame: FrameModel,
    target: crate::evaluator::TargetModel,
)
    requires
        closed(memory, scopes),
    ensures
        closed(
            deliver_target(stack, memory, scopes, frame, target).machine.memory,
            deliver_target(stack, memory, scopes, frame, target).machine.scopes,
        ),
{
    let after = deliver_target(stack, memory, scopes, frame, target).machine;
    lemma_candidate(memory, scopes, after);
    match frame {
        FrameModel::Target { op, right, scope } => {
            lemma_store_keeps_the_heap_closed(scopes, memory, target, right, scope);
            let written = store(scopes, memory, target, right, scope);
            lemma_candidate(written.memory, written.scopes, after);
            match target {
                crate::evaluator::TargetModel::Id(id) => {
                    if memory.cells.contains_key(id) {
                        lemma_complete_keeps_the_heap_closed(
                            stack,
                            memory,
                            scopes,
                            crate::evaluator::semantics::compound(op, memory.cells[id], right),
                            Some(id),
                        );
                    }
                },
                _ => {},
            }
        },
        FrameModel::Destructure { plan, targets, right, scope } => {
            lemma_apply_all_keeps_the_heap_closed(
                scopes,
                memory,
                plan,
                targets.push(target),
                scope,
                0,
            );
            let written = apply_all(scopes, memory, plan, targets.push(target), scope, 0);
            lemma_candidate(written.memory, written.scopes, after);
        },
        _ => {},
    }
}

/// Evaluation leaves no reference dangling: if every reference in the heap
/// and in the arena resolves before a step, every reference resolves after
/// it. This holds of every state of the evaluator, of every tree and of
/// every answer of the host; it holds across collections, which remove
/// only what nothing live refers to, and across writes, which refuse a
/// value that refers to something that is gone.
pub proof fn lemma_evaluation_keeps_the_heap_closed(machine: Machine, reply: ReplyModel)
    requires
        closed(machine.memory, machine.scopes),
    ensures
        closed(step(machine, reply).machine.memory, step(machine, reply).machine.scopes),
{
    reveal(step);
    let stack = machine.stack;
    let memory = machine.memory;
    let scopes = machine.scopes;
    let after = step(machine, reply).machine;
    lemma_candidate(memory, scopes, after);
    match machine.control {
        ControlModel::Eval { node, scope } => {
            lemma_eval_keeps_the_heap_closed(stack, memory, scopes, node, scope);
        },
        ControlModel::Return { value } => {
            if stack.len() > 0 {
                lemma_deliver_keeps_the_heap_closed(
                    stack.drop_last(),
                    memory,
                    scopes,
                    stack.last(),
                    value,
                );
            }
        },
        ControlModel::Resolved { target } => {
            if stack.len() > 0 {
                lemma_deliver_target_keeps_the_heap_closed(
                    stack.drop_last(),
                    memory,
                    scopes,
                    stack.last(),
                    target,
                );
            }
        },
        ControlModel::Await { kind } => {
            match (kind, reply) {
                (crate::evaluator::Awaiting::Number { store: Some(id) }, ReplyModel::Number(bits)) => {
                    if memory.cells.contains_key(id) {
                        lemma_atoms_resolve(ValueModel::Number(bits), memory, scopes);
                        lemma_overwriting_keeps_the_heap_closed(
                            memory,
                            scopes,
                            ValueModel::Number(bits),
                            id,
                        );
                    }
                },
                _ => {},
            }
        },
        _ => {},
    }
}

/// A program starts with a closed heap: the heap is empty, and the only
/// frame is the root, which has no parent, no caller and no binding.
pub proof fn lemma_fresh_heap_is_closed()
    ensures
        closed(
            MemoryModel {
                counter: 0,
                cells: Map::empty(),
                protected: Seq::empty(),
                last_amount: 0,
            },
            ScopesModel {
                counter: 0,
                frames: map![0usize => crate::interpreter::empty_frame(None, None)],
            },
        ),
{
    reveal(closed);
}

/// In a closed heap every name resolves to a live cell: reading a variable
/// never meets a cell that is gone.
pub proof fn lemma_names_resolve_to_live_cells(
    memory: MemoryModel,
    scopes: ScopesModel,
    name: Seq<char>,
    scope: RegIndex,
)
    requires
        closed(memory, scopes),
        lookup_binding(scopes.frames, name, scope) is Some,
    ensures
        memory.cells.contains_key(lookup_binding(scopes.frames, name, scope)->0),
    decreases scope,
{
    reveal(closed);
    if scopes.frames[scope].vars.contains_key(name) {
        let id = scopes.frames[scope].vars[name];
        assert(scopes.frames[scope].vars.contains_value(id));
        assert(live_nodes(memory, scopes).contains(Node::Frame(scope)));
        assert(edge(memory, scopes, Node::Frame(scope), Node::Cell(id)));
        assert(live_nodes(memory, scopes).contains(Node::Cell(id)));
    } else {
        lemma_names_resolve_to_live_cells(memory, scopes, name, scopes.frames[scope].parent_id->0);
    }
}

/// In a closed heap every element of a live array is live, and so is what
/// a value refers to that was just read from a cell: indexing into an array
/// that a cell holds never meets a cell that is gone.
pub proof fn lemma_elements_are_live(
    memory: MemoryModel,
    scopes: ScopesModel,
    h: RegIndex,
    number: u64,
)
    requires
        closed(memory, scopes),
        memory.cells.contains_key(h),
        memory.cells[h] is Array,
    ensures
        resolves(memory.cells[h], memory, scopes),
        element(memory.cells[h], number, memory.cells) is Ok <==> index_of(
            number,
            memory.cells[h]->Array_0.len() as usize,
        ) is Some,
{
    reveal(closed);
    reveal(resolves);
    let handles = memory.cells[h]->Array_0;
    assert forall|to: Node| #[trigger] refers(memory.cells[h], to) implies live_nodes(
        memory,
        scopes,
    ).contains(to) by {
        assert(live_nodes(memory, scopes).contains(Node::Cell(h)));
        assert(edge(memory, scopes, Node::Cell(h), to));
    }
    match index_of(number, handles.len() as usize) {
        Some(i) => {
            let to = Node::Cell(handles[i as int]);
            assert(handles.contains(handles[i as int]));
            assert(refers(memory.cells[h], to));
            assert(live_nodes(memory, scopes).contains(to));
        },
        None => {},
    }
}

/// Whether every cell of `before` is a cell of `after`.
pub open spec fn grows(before: MemoryModel, after: MemoryModel) -> bool {
    forall|h: RegIndex| #[trigger] before.cells.contains_key(h) ==> after.cells.contains_key(h)
}

/// Whether every live cell that `before` protects is a cell of `after`.
pub open spec fn keeps_protected(before: MemoryModel, after: MemoryModel) -> bool {
    forall|h: RegIndex|
        #[trigger] before.cells.contains_key(h) && is_protected(before, h)
            ==> after.cells.contains_key(h)
}

proof fn lemma_store_grows(
    scopes: ScopesModel,
    memory: MemoryModel,
    target: crate::evaluator::TargetModel,
    value: ValueModel,
    scope: RegIndex,
)
    ensures
        grows(memory, store(scopes, memory, target, value, scope).memory),
{
}

proof fn lemma_apply_all_grows(
    scopes: ScopesModel,
    memory: MemoryModel,
    plan: Seq<(NodeModel, SourceModel)>,
    targets: Seq<crate::evaluator::TargetModel>,
    scope: RegIndex,
    from: int,
)
    ensures
        grows(memory, apply_all(scopes, memory, plan, targets, scope, from).memory),
    decreases plan.len() - from,
{
    if !(from < 0 || from >= plan.len() || from >= targets.len()) {
        match crate::evaluator::semantics::source_value(plan[from].1, memory.cells) {
            None => {},
            Some(value) => {
                let written = store(scopes, memory, targets[from], value, scope);
                lemma_store_grows(scopes, memory, targets[from], value, scope);
                if written.error is None {
                    lemma_apply_all_grows(
                        written.scopes,
                        written.memory,
                        plan,
                        targets,
                        scope,
                        from + 1,
                    );
                }
            },
        }
    }
}

proof fn lemma_bind_args_grows(
    scopes: ScopesModel,
    memory: MemoryModel,
    names: Seq<Seq<char>>,
    values: Seq<ValueModel>,
    run: RegIndex,
    from: int,
)
    ensures
        grows(memory, bind_args(scopes, memory, names, values, run, from).memory),
    decreases names.len() - from,
{
    if !(from < 0 || from >= names.len() || from >= values.len()) && memory.counter
        != usize::MAX && resolves(values[from], memory, scopes) {
        let assigned = assign_local(scopes, memory, names[from], run, values[from]);
        if assigned.done {
            lemma_bind_args_grows(
                assigned.scopes,
                assigned.memory,
                names,
                values,
                run,
                from + 1,
            );
            let after = bind_args(scopes, memory, names, values, run, from).memory;
            assert forall|h: RegIndex| #[trigger] memory.cells.contains_key(h) implies after.cells.contains_key(
                h,
            ) by {
                assert(assigned.memory.cells.contains_key(h));
            }
        }
    }
}

proof fn lemma_collection_keeps_protected(memory: MemoryModel, scopes: ScopesModel, scope: RegIndex)
    ensures
        keeps_protected(memory, memory.collected(scopes, scope)),
{
    assert forall|h: RegIndex|
        #[trigger] memory.cells.contains_key(h) && is_protected(
            memory,
            h,
        ) implies memory.collected(scopes, scope).cells.contains_key(h) by {
        let n = Node::Cell(h);
        assert(gc_roots(memory, scope).contains(n));
        lemma_collection_keeps_reachable(memory, scopes, scope, n, n);
    }
}

proof fn lemma_protecting_keeps_protected(memory: MemoryModel, value: ValueModel, h: RegIndex)
    requires
        is_protected(memory, h),
    ensures
        is_protected(memory.protect(value), h),
{
    let i = choose|i: int|
        0 <= i < memory.protected.len() && (#[trigger] memory.protected[i]).contains(h);
    let after = memory.protect(value);
    let j = choose|j: int| 0 <= j < memory.protected[i].len() && memory.protected[i][j] == h;
    if i == memory.protected.len() - 1 {
        assert(after.protected[i][j] == h);
    } else {
        assert(after.protected[i] == memory.protected[i]);
    }
    assert(after.protected[i].contains(h));
}

proof fn lemma_call_keeps_protected(
    stack: Seq<FrameModel>,
    memory: MemoryModel,
    scopes: ScopesModel,
    callee: ValueModel,
    values: Seq<ValueModel>,
    scope: RegIndex,
)
    ensures
        keeps_protected(memory, call(stack, memory, scopes, callee, values, scope).machine.memory),
{
    lemma_collection_keeps_protected(memory, scopes, scope);
    match callee {
        ValueModel::Function { arg_names, code, scope_id } => {
            let derived = scopes.derive(scope_id, scope);
            lemma_bind_args_grows(derived, memory, arg_names, values, derived.counter, 0);
        },
        _ => {},
    }
}

proof fn lemma_deliver_keeps_protected(
    stack: Seq<FrameModel>,
    memory: MemoryModel,
    scopes: ScopesModel,
    frame: FrameModel,
    value: ValueModel,
)
    ensures
        keeps_protected(memory, deliver(stack, memory, scopes, frame, value).machine.memory),
{
    let kept = memory.protect(value);
    let after = deliver(stack, memory, scopes, frame, value).machine.memory;
    if crate::evaluator::semantics::has_room(memory) && resolves(value, memory, scopes) {
        match frame {
            FrameModel::CallBase { args, scope } => {
                lemma_call_keeps_protected(stack, kept, scopes, value, Seq::empty(), scope);
            },
            FrameModel::CallArgs { callee, args, values, scope } => {
                lemma_call_keeps_protected(stack, kept, scopes, callee, values.push(value), scope);
            },
            _ => {},
        }
        assert forall|h: RegIndex|
            #[trigger] memory.cells.contains_key(h) && is_protected(
                memory,
                h,
            ) implies after.cells.contains_key(h) by {
            lemma_protecting_keeps_protected(memory, value, h);
            assert(kept.cells.contains_key(h));
        }
    }
}

proof fn lemma_deliver_target_keeps_protected(
    stack: Seq<FrameModel>,
    memory: MemoryModel,
    scopes: ScopesModel,
    frame: FrameModel,
    target: crate::evaluator::TargetModel,
)
    ensures
        grows(memory, deliver_target(stack, memory, scopes, frame, target).machine.memory),
{
    match frame {
        FrameModel::Target { op, right, scope } => {
            lemma_store_grows(scopes, memory, target, right, scope);
        },
        FrameModel::Destructure { plan, targets, right, scope } => {
            lemma_apply_all_grows(scopes, memory, plan, targets.push(target), scope, 0);
        },
        _ => {},
    }
}

/// What is protected is kept: a live cell whose handle lies in a protected
/// frame before a step is live after it, whatever the step does, a
/// collection included. So what a node has protected stays while the node
/// is being evaluated.
pub proof fn lemma_protected_cells_survive(machine: Machine, reply: ReplyModel, h: RegIndex)
    requires
        machine.memory.cells.contains_key(h),
        is_protected(machine.memory, h),
    ensures
        step(machine, reply).machine.memory.cells.contains_key(h),
{
    reveal(step);
    let stack = machine.stack;
    let memory = machine.memory;
    let scopes = machine.scopes;
    match machine.control {
        ControlModel::Eval { node, scope } => {
            lemma_collection_keeps_protected(memory, scopes, scope);
        },
        ControlModel::Return { value } => {
            if stack.len() > 0 {
                lemma_deliver_keeps_protected(stack.drop_last(), memory, scopes, stack.last(), value);
            }
        },
        ControlModel::Resolved { target } => {
            if stack.len() > 0 {
                lemma_deliver_target_keeps_protected(
                    stack.drop_last(),
                    memory,
                    scopes,
                    stack.last(),
                    target,
                );
            }
        },
        _ => {},
    }
}

} // verus!

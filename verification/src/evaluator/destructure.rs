//! The plan of a destructuring assignment.

use vstd::prelude::*;
use crate::errors::{BaseError, ErrorModel, failure, interpreter_error};
use crate::interpreter::Memory;
use crate::lexer::Token;
use crate::parser::{ASTNode, NodeModel, lemma_node_view, nodes_model};
use crate::value::{RegIndex, Value};
use super::semantics;
use super::semantics::{count_spreads, is_spread, plan_from, spread_share};
use super::{Source, SourceModel, plan_model};

verus! {

/// The model of the outcome of planning.
pub open spec fn plan_result_model(res: Result<Vec<(ASTNode, Source)>, BaseError>) -> Result<
    Seq<(NodeModel, SourceModel)>,
    ErrorModel,
> {
    match res {
        Ok(entries) => Ok(plan_model(entries@)),
        Err(error) => Err(error@),
    }
}

/// The spreads among the first `i + 1` patterns are those among the first
/// `i` and the pattern at `i`, if it is one.
pub proof fn lemma_count_spreads_step(patterns: Seq<NodeModel>, i: int)
    requires
        0 <= i < patterns.len(),
    ensures
        count_spreads(patterns.take(i + 1)) == count_spreads(patterns.take(i)) + if is_spread(
            patterns[i],
        ) {
            1nat
        } else {
            0nat
        },
        count_spreads(patterns.take(i + 1)) <= i + 1,
    decreases i,
{
    assert(patterns.take(i + 1).drop_last() =~= patterns.take(i));
    assert(patterns.take(i + 1).last() == patterns[i]);
    if i > 0 {
        lemma_count_spreads_step(patterns, i - 1);
    } else {
        assert(count_spreads(patterns.take(0)) == 0);
    }
}

/// Whether a pattern is a spread.
pub fn test_spread(pattern: &ASTNode) -> (res: bool)
    ensures
        res == is_spread(pattern@),
{
    match pattern {
        ASTNode::Unary { op: Token::Range, .. } => true,
        _ => false,
    }
}

/// The number of spreads among the patterns.
pub fn spreads_in(patterns: &Vec<ASTNode>) -> (res: usize)
    ensures
        res == count_spreads(nodes_model(patterns@)),
        res <= patterns@.len(),
{
    let ghost models = nodes_model(patterns@);
    let mut count: usize = 0;
    let mut i: usize = 0;
    assert(count_spreads(models.take(0)) == 0);
    while i < patterns.len()
        invariant
            i <= patterns.len(),
            models == nodes_model(patterns@),
            count == count_spreads(models.take(i as int)),
            count <= i,
        decreases patterns.len() - i,
    {
        proof {
            lemma_count_spreads_step(models, i as int);
            assert(models[i as int] == patterns@[i as int]@);
        }
        if test_spread(&patterns[i]) {
            count = count + 1;
        }
        i = i + 1;
    }
    assert(models.take(models.len() as int) =~= models);
    count
}

fn slice_of(handles: &Vec<RegIndex>, from: usize, to: usize) -> (res: Vec<RegIndex>)
    requires
        from <= to <= handles@.len(),
    ensures
        res@ == handles@.subrange(from as int, to as int),
{
    let mut out: Vec<RegIndex> = Vec::new();
    let mut i: usize = from;
    while i < to
        invariant
            from <= i <= to <= handles@.len(),
            out@ == handles@.subrange(from as int, i as int),
        decreases to - i,
    {
        out.push(handles[i]);
        assert(out@ =~= handles@.subrange(from as int, i + 1));
        i = i + 1;
    }
    out
}

fn lengths_differ() -> (res: BaseError)
    ensures
        res@ == failure("Cannot destructure: lengths differ"@),
{
    interpreter_error("Cannot destructure: lengths differ")
}

/// Plans a destructuring assignment: pairs every target among the patterns
/// with what it receives from the items `handles`.
pub fn plan(patterns: &Vec<ASTNode>, handles: &Vec<RegIndex>, memory: &Memory) -> (res: Result<
    Vec<(ASTNode, Source)>,
    BaseError,
>)
    ensures
        plan_result_model(res) == semantics::plan(nodes_model(patterns@), handles@, memory@.cells),
    decreases patterns,
{
    let ghost models = nodes_model(patterns@);
    let ghost cells = memory@.cells;
    let spreads = spreads_in(patterns);
    if spreads == 0 && patterns.len() != handles.len() {
        return Err(lengths_differ());
    }
    if spreads > 0 && handles.len() < patterns.len() - spreads {
        return Err(lengths_differ());
    }
    let spare: usize = handles.len() - (patterns.len() - spreads);
    let ghost goal = plan_from(
        models,
        0,
        handles@,
        0,
        0,
        spare as nat,
        spreads as nat,
        cells,
    );
    let mut out: Vec<(ASTNode, Source)> = Vec::new();
    let mut at: usize = 0;
    let mut pos: usize = 0;
    let mut spread: usize = 0;
    assert(plan_model(out@) =~= Seq::empty());
    assert(Seq::<(NodeModel, SourceModel)>::empty() + goal->Ok_0 =~= goal->Ok_0);
    while at < patterns.len()
        invariant
            at <= patterns.len(),
            pos <= handles@.len(),
            spread <= at,
            models == nodes_model(patterns@),
            cells == memory@.cells,
            goal == semantics::plan(models, handles@, cells),
            match plan_from(
                models,
                at as int,
                handles@,
                pos as int,
                spread as nat,
                spare as nat,
                spreads as nat,
                cells,
            ) {
                Ok(rest) => goal == Ok::<Seq<(NodeModel, SourceModel)>, ErrorModel>(
                    plan_model(out@) + rest,
                ),
                Err(error) => goal == Err::<Seq<(NodeModel, SourceModel)>, ErrorModel>(error),
            },
        decreases patterns.len() - at,
    {
        let ghost before = plan_model(out@);
        let ghost prior = out@;
        proof {
            lemma_node_view(patterns@[at as int]);
            assert(models[at as int] == patterns@[at as int]@);
        }
        match &patterns[at] {
            ASTNode::Unary { op: Token::Range, value } => {
                let share: usize = if spreads == 0 {
                    0
                } else {
                    let base: usize = spare / spreads;
                    if spread < spare % spreads {
                        proof {
                            let b = base as int;
                            let n = spreads as int;
                            let total = spare as int;
                            assert(n >= 2);
                            assert(b * n <= total) by (nonlinear_arith)
                                requires
                                    b == total / n,
                                    n > 0,
                                    total >= 0,
                            ;
                            assert(b * 2 <= b * n) by (nonlinear_arith)
                                requires
                                    n >= 2,
                                    b >= 0,
                            ;
                        }
                        base + 1
                    } else {
                        base
                    }
                };
                assert(share == spread_share(spare as nat, spreads as nat, spread as nat));
                if share > handles.len() - pos {
                    return Err(lengths_differ());
                }
                let target = (**value).clone();
                let source = Source::Spread(slice_of(handles, pos, pos + share));
                let ghost entry = (target@, source@);
                out.push((target, source));
                proof {
                    assert(plan_model(out@) =~= before + seq![entry]);
                    let tail = plan_from(
                        models,
                        at + 1,
                        handles@,
                        pos + share,
                        (spread + 1) as nat,
                        spare as nat,
                        spreads as nat,
                        cells,
                    );
                    if tail is Ok {
                        assert(before + (seq![entry] + tail->Ok_0) =~= (before + seq![entry])
                            + tail->Ok_0);
                    }
                }
                pos = pos + share;
                spread = spread + 1;
            },
            ASTNode::Array { values } => {
                if pos >= handles.len() {
                    return Err(lengths_differ());
                }
                match memory.lookup(handles[pos]) {
                    None => {
                        return Err(interpreter_error("Value is gone"));
                    },
                    Some(Value::Array(inner)) => {
                        match plan(values, inner, memory) {
                            Err(error) => {
                                proof {
                                    let tail = plan_from(
                                        models,
                                        at + 1,
                                        handles@,
                                        pos + 1,
                                        spread as nat,
                                        spare as nat,
                                        spreads as nat,
                                        cells,
                                    );
                                }
                                return Err(error);
                            },
                            Ok(first) => {
                                let ghost added = plan_model(first@);
                                let mut first = first;
                                let ghost full = first@;
                                // The entries of the inner plan are moved over in order.
                                let mut reversed: Vec<(ASTNode, Source)> = Vec::new();
                                while first.len() > 0
                                    invariant
                                        reversed@.len() + first@.len() == full.len(),
                                        forall|k: int|
                                            0 <= k < first@.len() ==> first@[k] == full[k],
                                        forall|k: int|
                                            0 <= k < reversed@.len() ==> reversed@[k] == full[full.len()
                                                - 1 - k],
                                    decreases first.len(),
                                {
                                    let entry = first.pop().unwrap();
                                    reversed.push(entry);
                                }
                                while reversed.len() > 0
                                    invariant
                                        reversed@.len() <= full.len(),
                                        forall|k: int|
                                            0 <= k < reversed@.len() ==> reversed@[k] == full[full.len()
                                                - 1 - k],
                                        out@ == prior + full.take(full.len() - reversed@.len()),
                                    decreases reversed.len(),
                                {
                                    let ghost moved = full.len() - reversed@.len();
                                    let entry = reversed.pop().unwrap();
                                    out.push(entry);
                                    assert(out@ =~= prior + full.take(moved + 1));
                                }
                                proof {
                                    assert(full.take(full.len() as int) =~= full);
                                    assert(plan_model(out@) =~= before + added);
                                    let tail = plan_from(
                                        models,
                                        at + 1,
                                        handles@,
                                        pos + 1,
                                        spread as nat,
                                        spare as nat,
                                        spreads as nat,
                                        cells,
                                    );
                                    if tail is Ok {
                                        assert(before + (added + tail->Ok_0) =~= (before + added)
                                            + tail->Ok_0);
                                    }
                                }
                                pos = pos + 1;
                            },
                        }
                    },
                    Some(_) => {
                        return Err(interpreter_error("cannot destructure non-array"));
                    },
                }
            },
            other => {
                if pos >= handles.len() {
                    return Err(lengths_differ());
                }
                let target = other.clone();
                let source = Source::Single(handles[pos]);
                let ghost entry = (target@, source@);
                out.push((target, source));
                proof {
                    assert(plan_model(out@) =~= before + seq![entry]);
                    let tail = plan_from(
                        models,
                        at + 1,
                        handles@,
                        pos + 1,
                        spread as nat,
                        spare as nat,
                        spreads as nat,
                        cells,
                    );
                    if tail is Ok {
                        assert(before + (seq![entry] + tail->Ok_0) =~= (before + seq![entry])
                            + tail->Ok_0);
                    }
                }
                pos = pos + 1;
            },
        }
        at = at + 1;
    }
    proof {
        assert(plan_model(out@) + Seq::<(NodeModel, SourceModel)>::empty() =~= plan_model(out@));
    }
    Ok(out)
}

} // verus!

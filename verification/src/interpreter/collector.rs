//! Mark and sweep over the heap and the scope arena.
//!
//! The heap and the arena form one graph. A frame points to the cells that
//! it binds, to its parent and to its caller; a function value points to the
//! frame it captured; an array points to its elements. A collection keeps
//! what can be reached from the current frame and from the protected
//! handles, and removes everything else.

use vstd::prelude::*;
use std::collections::HashMap;
use std::collections::HashSet;
use vstd::std_specs::hash::*;
use crate::value::{RegIndex, Value, ValueModel};
use super::{
    Memory, MemoryModel, Scope, ScopeList, ScopesModel, cells_of, frames_of, keys_of, members_of,
};

verus! {

broadcast use {vstd::std_specs::hash::group_hash_axioms, vstd::set::group_set_axioms};

/// A node of the graph that the collector walks.
pub enum Node {
    /// A scope frame, by its handle in the arena.
    Frame(RegIndex),
    /// A value, by its handle in the heap.
    Cell(RegIndex),
}

/// Whether the value `value` refers to the node `to`: a function to the
/// frame it captured, an array to the cells of its elements.
pub open spec fn refers(value: ValueModel, to: Node) -> bool {
    match value {
        ValueModel::Function { scope_id, .. } => to == Node::Frame(scope_id),
        ValueModel::Array(elements) => to matches Node::Cell(k) && elements.contains(k),
        _ => false,
    }
}

/// Whether the live node `from` refers to `to`: a frame to the cells that
/// it binds, to its parent and to its caller; a cell to what its value
/// refers to.
pub open spec fn edge(memory: MemoryModel, scopes: ScopesModel, from: Node, to: Node) -> bool {
    match from {
        Node::Frame(s) => scopes.frames.contains_key(s) && match to {
            Node::Cell(h) => scopes.frames[s].vars.contains_value(h),
            Node::Frame(t) => scopes.frames[s].parent_id == Some(t) || scopes.frames[s].caller_id
                == Some(t),
        },
        Node::Cell(h) => memory.cells.contains_key(h) && refers(memory.cells[h], to),
    }
}

/// Whether `path` is a chain of references that stays inside `within`.
pub open spec fn is_path(
    memory: MemoryModel,
    scopes: ScopesModel,
    within: Set<Node>,
    path: Seq<Node>,
) -> bool {
    &&& path.len() > 0
    &&& forall|i: int| 0 <= i < path.len() ==> within.contains(#[trigger] path[i])
    &&& forall|i: int|
        0 <= i < path.len() - 1 ==> edge(memory, scopes, #[trigger] path[i], path[i + 1])
}

/// Whether `target` can be reached from a node of `roots` by a chain of
/// references that stays inside `within`.
pub open spec fn reaches(
    memory: MemoryModel,
    scopes: ScopesModel,
    within: Set<Node>,
    roots: Set<Node>,
    target: Node,
) -> bool {
    exists|path: Seq<Node>|
        #[trigger] is_path(memory, scopes, within, path) && roots.contains(path[0]) && path.last()
            == target
}

/// The live nodes: every frame of the arena and every cell of the heap.
pub open spec fn live_nodes(memory: MemoryModel, scopes: ScopesModel) -> Set<Node> {
    Set::new(
        |n: Node|
            match n {
                Node::Frame(s) => scopes.frames.contains_key(s),
                Node::Cell(h) => memory.cells.contains_key(h),
            },
    )
}

/// Whether everything that `value` refers to is live.
#[verifier::opaque]
pub open spec fn resolves(value: ValueModel, memory: MemoryModel, scopes: ScopesModel) -> bool {
    forall|to: Node| #[trigger] refers(value, to) ==> live_nodes(memory, scopes).contains(to)
}

/// Whether no reference dangles: whatever a live frame or cell refers to is
/// live.
#[verifier::opaque]
pub open spec fn closed(memory: MemoryModel, scopes: ScopesModel) -> bool {
    forall|n: Node, m: Node|
        live_nodes(memory, scopes).contains(n) && #[trigger] edge(memory, scopes, n, m)
            ==> live_nodes(memory, scopes).contains(m)
}

/// Whether some protected frame holds the handle `h`.
pub open spec fn is_protected(memory: MemoryModel, h: RegIndex) -> bool {
    exists|i: int| 0 <= i < memory.protected.len() && (#[trigger] memory.protected[i]).contains(h)
}

/// The roots of a collection: the current frame and every protected handle.
pub open spec fn gc_roots(memory: MemoryModel, scope: RegIndex) -> Set<Node> {
    Set::new(
        |n: Node|
            match n {
                Node::Frame(s) => s == scope,
                Node::Cell(h) => is_protected(memory, h),
            },
    )
}

/// Whether the live node `n` survives a collection run from the frame
/// `scope`.
pub open spec fn survives(memory: MemoryModel, scopes: ScopesModel, scope: RegIndex, n: Node) -> bool {
    reaches(memory, scopes, live_nodes(memory, scopes), gc_roots(memory, scope), n)
}

impl MemoryModel {
    /// The handles of the cells that survive a collection.
    pub open spec fn surviving(self, scopes: ScopesModel, scope: RegIndex) -> Set<RegIndex> {
        Set::new(|h: RegIndex| survives(self, scopes, scope, Node::Cell(h)))
    }

    /// The heap after a collection run from the frame `scope`: the surviving
    /// cells, unchanged, and the new population on record.
    pub open spec fn collected(self, scopes: ScopesModel, scope: RegIndex) -> MemoryModel {
        let cells = self.cells.restrict(self.surviving(scopes, scope));
        MemoryModel { cells, last_amount: cells.dom().len() as usize, ..self }
    }
}

impl ScopesModel {
    /// The handles of the frames that survive a collection.
    pub open spec fn surviving(self, memory: MemoryModel, scope: RegIndex) -> Set<RegIndex> {
        Set::new(|s: RegIndex| survives(memory, self, scope, Node::Frame(s)))
    }

    /// The arena after a collection run from the frame `scope`: the
    /// surviving frames, unchanged.
    pub open spec fn collected(self, memory: MemoryModel, scope: RegIndex) -> ScopesModel {
        ScopesModel { frames: self.frames.restrict(self.surviving(memory, scope)), ..self }
    }
}

/// The candidates for removal during a collection: the frames and cells that
/// the walk has not reached yet.
#[derive(Debug)]
pub struct CollectTracker {
    marked_scopes: HashSet<RegIndex>,
    marked_values: HashSet<RegIndex>,
}

/// Mathematical model of a [`CollectTracker`].
pub struct TrackerModel {
    pub scopes: Set<RegIndex>,
    pub values: Set<RegIndex>,
}

impl TrackerModel {
    /// The candidates as nodes of the graph.
    pub open spec fn nodes(self) -> Set<Node> {
        Set::new(
            |n: Node|
                match n {
                    Node::Frame(s) => self.scopes.contains(s),
                    Node::Cell(h) => self.values.contains(h),
                },
        )
    }

    /// The candidates that are left when every node that can be reached
    /// from `roots` inside `within` is struck off.
    pub open spec fn without_reached(
        self,
        memory: MemoryModel,
        scopes: ScopesModel,
        within: Set<Node>,
        roots: Set<Node>,
    ) -> TrackerModel {
        TrackerModel {
            scopes: self.scopes.filter(
                |s: RegIndex| !reaches(memory, scopes, within, roots, Node::Frame(s)),
            ),
            values: self.values.filter(
                |h: RegIndex| !reaches(memory, scopes, within, roots, Node::Cell(h)),
            ),
        }
    }

    /// The candidates after marking from the frame `scope`: the frame itself
    /// is struck off, and with it everything that it reaches through
    /// candidates.
    pub open spec fn marked_from(
        self,
        memory: MemoryModel,
        scopes: ScopesModel,
        scope: RegIndex,
    ) -> TrackerModel {
        self.without_reached(
            memory,
            scopes,
            self.nodes().insert(Node::Frame(scope)),
            set![Node::Frame(scope)],
        )
    }
}

impl View for CollectTracker {
    type V = TrackerModel;

    closed spec fn view(&self) -> TrackerModel {
        TrackerModel { scopes: self.marked_scopes@, values: self.marked_values@ }
    }
}

impl CollectTracker {
    #[verifier::type_invariant]
    spec fn well_formed(self) -> bool {
        self.marked_scopes@.finite() && self.marked_values@.finite()
    }

    /// The number of candidates.
    pub closed spec fn size(&self) -> nat {
        self.marked_scopes@.len() + self.marked_values@.len()
    }

    /// A tracker in which every live frame and every live cell is a candidate.
    pub fn new(memory: &Memory, scopes: &ScopeList) -> (res: Self)
        ensures
            res@.scopes == scopes@.frames.dom(),
            res@.values == memory@.cells.dom(),
            res@.nodes() == live_nodes(memory@, scopes@),
    {
        let mut marked_scopes: HashSet<RegIndex> = HashSet::new();
        let mut marked_values: HashSet<RegIndex> = HashSet::new();
        let value_ids = keys_of(&memory.register);
        let mut i: usize = 0;
        while i < value_ids.len()
            invariant
                i <= value_ids.len(),
                marked_values@.finite(),
                forall|h: RegIndex|
                    marked_values@.contains(h) <==> exists|j: int|
                        0 <= j < i && value_ids@[j] == h,
            decreases value_ids.len() - i,
        {
            marked_values.insert(value_ids[i]);
            i = i + 1;
        }
        let scope_ids = keys_of(&scopes.register);
        let mut k: usize = 0;
        while k < scope_ids.len()
            invariant
                k <= scope_ids.len(),
                marked_scopes@.finite(),
                forall|s: RegIndex|
                    marked_scopes@.contains(s) <==> exists|j: int|
                        0 <= j < k && scope_ids@[j] == s,
            decreases scope_ids.len() - k,
        {
            marked_scopes.insert(scope_ids[k]);
            k = k + 1;
        }
        let res = CollectTracker { marked_scopes, marked_values };
        proof {
            assert(memory@.cells.dom() =~= memory.register@.dom());
            assert(scopes@.frames.dom() =~= scopes.register@.dom());
            assert(marked_values@ =~= memory.register@.dom()) by {
                assert forall|h: RegIndex|
                    marked_values@.contains(h) <==> memory.register@.dom().contains(h) by {
                    assert(value_ids@.to_set().contains(h) <==> value_ids@.contains(h));
                }
            }
            assert(marked_scopes@ =~= scopes.register@.dom()) by {
                assert forall|s: RegIndex|
                    marked_scopes@.contains(s) <==> scopes.register@.dom().contains(s) by {
                    assert(scope_ids@.to_set().contains(s) <==> scope_ids@.contains(s));
                }
            }
            assert(res@.nodes() =~= live_nodes(memory@, scopes@));
        }
        res
    }

    /// Whether the frame `id` is a candidate.
    pub fn has_scope(&self, id: RegIndex) -> (res: bool)
        ensures
            res == self@.scopes.contains(id),
    {
        self.marked_scopes.contains(&id)
    }

    /// Whether the cell `id` is a candidate.
    pub fn has_value(&self, id: RegIndex) -> (res: bool)
        ensures
            res == self@.values.contains(id),
    {
        self.marked_values.contains(&id)
    }

    /// Strikes the frame `id` off the candidates; says whether it was one.
    pub fn take_scope(&mut self, id: RegIndex) -> (res: bool)
        ensures
            res == old(self)@.scopes.contains(id),
            final(self)@ == (TrackerModel { scopes: old(self)@.scopes.remove(id), ..old(self)@ }),
            final(self).size() + (if res {
                1nat
            } else {
                0nat
            }) == old(self).size(),
    {
        proof {
            use_type_invariant(&*self);
        }
        let mut set: HashSet<RegIndex> = HashSet::new();
        core::mem::swap(&mut self.marked_scopes, &mut set);
        let res = set.remove(&id);
        core::mem::swap(&mut self.marked_scopes, &mut set);
        res
    }

    /// Strikes the cell `id` off the candidates; says whether it was one.
    pub fn take_value(&mut self, id: RegIndex) -> (res: bool)
        ensures
            res == old(self)@.values.contains(id),
            final(self)@ == (TrackerModel { values: old(self)@.values.remove(id), ..old(self)@ }),
            final(self).size() + (if res {
                1nat
            } else {
                0nat
            }) == old(self).size(),
    {
        proof {
            use_type_invariant(&*self);
        }
        let mut set: HashSet<RegIndex> = HashSet::new();
        core::mem::swap(&mut self.marked_values, &mut set);
        let res = set.remove(&id);
        core::mem::swap(&mut self.marked_values, &mut set);
        res
    }

    /// The frames that are still candidates.
    pub fn remaining_scopes(&self) -> (res: Vec<RegIndex>)
        ensures
            res@.to_set() == self@.scopes,
            res@.no_duplicates(),
    {
        members_of(&self.marked_scopes)
    }

    /// The cells that are still candidates.
    pub fn remaining_values(&self) -> (res: Vec<RegIndex>)
        ensures
            res@.to_set() == self@.values,
            res@.no_duplicates(),
    {
        members_of(&self.marked_values)
    }
}

/// Whether everything that `value` refers to is live: the frame that a
/// function captured, the cells of the elements of an array.
pub fn test_resolves(value: &Value, memory: &Memory, scopes: &ScopeList) -> (res: bool)
    ensures
        res == resolves(value@, memory@, scopes@),
{
    proof {
        reveal(resolves);
    }
    match value {
        Value::Function { scope_id, .. } => {
            let live = scopes.contains(*scope_id);
            assert(refers(value@, Node::Frame(*scope_id)));
            assert(live_nodes(memory@, scopes@).contains(Node::Frame(*scope_id)) == live);
            live
        },
        Value::Array(elements) => {
            let mut i: usize = 0;
            while i < elements.len()
                invariant
                    i <= elements.len(),
                    value@ == ValueModel::Array(elements@),
                    forall|k: int|
                        0 <= k < i ==> memory@.cells.contains_key(#[trigger] elements@[k]),
                decreases elements.len() - i,
            {
                if !memory.contains(elements[i]) {
                    proof {
                        reveal(resolves);
                    }
                    let ghost gone = Node::Cell(elements@[i as int]);
                    assert(elements@.contains(elements@[i as int]));
                    assert(refers(value@, gone));
                    assert(!live_nodes(memory@, scopes@).contains(gone));
                    return false;
                }
                i = i + 1;
            }
            assert forall|to: Node| #[trigger] refers(value@, to) implies live_nodes(
                memory@,
                scopes@,
            ).contains(to) by {
                match to {
                    Node::Cell(k) => {
                        let j = choose|j: int| 0 <= j < elements@.len() && elements@[j] == k;
                        assert(memory@.cells.contains_key(elements@[j]));
                    },
                    Node::Frame(s) => {},
                }
            }
            true
        },
        _ => true,
    }
}

/// Whether `n` waits in one of the two work lists.
pub open spec fn is_pending(
    pending_scopes: Seq<RegIndex>,
    pending_values: Seq<RegIndex>,
    n: Node,
) -> bool {
    match n {
        Node::Frame(s) => pending_scopes.contains(s),
        Node::Cell(h) => pending_values.contains(h),
    }
}

/// Whether everything that `n` refers to inside `start` has been struck off
/// the candidates.
pub open spec fn is_done(
    memory: MemoryModel,
    scopes: ScopesModel,
    start: Set<Node>,
    unvisited: Set<Node>,
    n: Node,
) -> bool {
    forall|m: Node| #[trigger] edge(memory, scopes, n, m) && start.contains(m) ==> !unvisited.contains(m)
}

/// The state of a walk that started with the candidates `start`: what has
/// been struck off can be reached from the roots, the roots have been struck
/// off, and a node that has been struck off either waits in a work list, is
/// being worked on, or is done.
pub open spec fn walk_invariant(
    memory: MemoryModel,
    scopes: ScopesModel,
    start: Set<Node>,
    roots: Set<Node>,
    unvisited: Set<Node>,
    pending_scopes: Seq<RegIndex>,
    pending_values: Seq<RegIndex>,
    current: Option<Node>,
) -> bool {
    &&& unvisited.subset_of(start)
    &&& forall|n: Node|
        start.contains(n) && !unvisited.contains(n) ==> #[trigger] reaches(
            memory,
            scopes,
            start,
            roots,
            n,
        )
    &&& forall|n: Node| #[trigger] roots.contains(n) && start.contains(n) ==> !unvisited.contains(n)
    &&& forall|n: Node|
        start.contains(n) && !unvisited.contains(n) ==> is_pending(
            pending_scopes,
            pending_values,
            n,
        ) || current == Some(n) || #[trigger] is_done(memory, scopes, start, unvisited, n)
    &&& forall|n: Node| #[trigger]
        is_pending(pending_scopes, pending_values, n) ==> start.contains(n) && !unvisited.contains(n)
    &&& current matches Some(n) ==> start.contains(n) && !unvisited.contains(n)
}

proof fn lemma_take_to_set(s: Seq<RegIndex>, i: int)
    requires
        0 <= i < s.len(),
    ensures
        s.take(i + 1).to_set() == s.take(i).to_set().insert(s[i]),
{
    let longer = s.take(i + 1);
    let shorter = s.take(i);
    assert forall|k: RegIndex| longer.to_set().contains(k) <==> shorter.to_set().insert(
        s[i],
    ).contains(k) by {
        if longer.contains(k) {
            let j = choose|j: int| 0 <= j < longer.len() && longer[j] == k;
            if j < i {
                assert(shorter[j] == k);
            }
        }
        if shorter.contains(k) {
            let j = choose|j: int| 0 <= j < shorter.len() && shorter[j] == k;
            assert(longer[j] == k);
        }
        if k == s[i] {
            assert(longer[i] == k);
        }
    }
    assert(longer.to_set() =~= shorter.to_set().insert(s[i]));
}

/// A root inside `within` is reached by the path that holds it alone.
pub proof fn lemma_root_reaches(
    memory: MemoryModel,
    scopes: ScopesModel,
    within: Set<Node>,
    roots: Set<Node>,
    n: Node,
)
    requires
        roots.contains(n),
        within.contains(n),
    ensures
        reaches(memory, scopes, within, roots, n),
{
    let path = seq![n];
    assert(is_path(memory, scopes, within, path));
    assert(path[0] == n && path.last() == n);
}

/// What a reached node refers to inside `within` is reached too.
pub proof fn lemma_reaches_step(
    memory: MemoryModel,
    scopes: ScopesModel,
    within: Set<Node>,
    roots: Set<Node>,
    n: Node,
    m: Node,
)
    requires
        reaches(memory, scopes, within, roots, n),
        edge(memory, scopes, n, m),
        within.contains(m),
    ensures
        reaches(memory, scopes, within, roots, m),
{
    let path = choose|path: Seq<Node>|
        #[trigger] is_path(memory, scopes, within, path) && roots.contains(path[0]) && path.last()
            == n;
    let longer = path.push(m);
    assert forall|i: int| 0 <= i < longer.len() - 1 implies edge(
        memory,
        scopes,
        #[trigger] longer[i],
        longer[i + 1],
    ) by {
        if i < path.len() - 1 {
            assert(longer[i] == path[i]);
            assert(longer[i + 1] == path[i + 1]);
        } else {
            assert(longer[i] == path.last());
        }
    }
    assert forall|i: int| 0 <= i < longer.len() implies within.contains(#[trigger] longer[i]) by {
        if i < path.len() {
            assert(longer[i] == path[i]);
        }
    }
    assert(is_path(memory, scopes, within, longer));
    assert(longer[0] == path[0]);
    assert(longer.last() == m);
}

proof fn lemma_path_visited(
    memory: MemoryModel,
    scopes: ScopesModel,
    start: Set<Node>,
    roots: Set<Node>,
    unvisited: Set<Node>,
    path: Seq<Node>,
    i: int,
)
    requires
        walk_invariant(memory, scopes, start, roots, unvisited, Seq::empty(), Seq::empty(), None),
        is_path(memory, scopes, start, path),
        roots.contains(path[0]),
        0 <= i < path.len(),
    ensures
        !unvisited.contains(path[i]),
    decreases i,
{
    if i > 0 {
        lemma_path_visited(memory, scopes, start, roots, unvisited, path, i - 1);
        let n = path[i - 1];
        assert(start.contains(n));
        assert(!is_pending(Seq::<RegIndex>::empty(), Seq::<RegIndex>::empty(), n));
        assert(is_done(memory, scopes, start, unvisited, n));
        assert(edge(memory, scopes, n, path[i]));
        assert(start.contains(path[i]));
    } else {
        assert(start.contains(path[0]));
    }
}

/// When both work lists are empty, the candidates that are left are exactly
/// those that the roots do not reach.
proof fn lemma_walk_complete(
    memory: MemoryModel,
    scopes: ScopesModel,
    start: Set<Node>,
    roots: Set<Node>,
    unvisited: Set<Node>,
)
    requires
        walk_invariant(memory, scopes, start, roots, unvisited, Seq::empty(), Seq::empty(), None),
    ensures
        forall|n: Node|
            unvisited.contains(n) <==> start.contains(n) && !reaches(
                memory,
                scopes,
                start,
                roots,
                n,
            ),
{
    assert forall|n: Node|
        unvisited.contains(n) <==> start.contains(n) && !reaches(
            memory,
            scopes,
            start,
            roots,
            n,
        ) by {
        if reaches(memory, scopes, start, roots, n) {
            let path = choose|path: Seq<Node>|
                #[trigger] is_path(memory, scopes, start, path) && roots.contains(path[0])
                    && path.last() == n;
            lemma_path_visited(memory, scopes, start, roots, unvisited, path, path.len() - 1);
        }
    }
}

/// The walk may go on after the node `from` has been worked on, once
/// nothing that `from` refers to is a candidate.
proof fn lemma_finish_node(
    memory: MemoryModel,
    scopes: ScopesModel,
    start: Set<Node>,
    roots: Set<Node>,
    unvisited: Set<Node>,
    pending_scopes: Seq<RegIndex>,
    pending_values: Seq<RegIndex>,
    from: Node,
)
    requires
        walk_invariant(
            memory,
            scopes,
            start,
            roots,
            unvisited,
            pending_scopes,
            pending_values,
            Some(from),
        ),
        is_done(memory, scopes, start, unvisited, from),
    ensures
        walk_invariant(memory, scopes, start, roots, unvisited, pending_scopes, pending_values, None),
{
}

impl Memory {
    /// Strikes the cell `h`, which the node `from` refers to, off the
    /// candidates, and queues it if it was one.
    fn strike_value(
        &self,
        scopes: &ScopeList,
        tracker: &mut CollectTracker,
        pending_values: &mut Vec<RegIndex>,
        h: RegIndex,
        Ghost(start): Ghost<Set<Node>>,
        Ghost(roots): Ghost<Set<Node>>,
        Ghost(pending_scopes): Ghost<Seq<RegIndex>>,
        Ghost(from): Ghost<Node>,
    )
        requires
            walk_invariant(
                self@,
                scopes@,
                start,
                roots,
                old(tracker)@.nodes(),
                pending_scopes,
                old(pending_values)@,
                Some(from),
            ),
            edge(self@, scopes@, from, Node::Cell(h)),
        ensures
            walk_invariant(
                self@,
                scopes@,
                start,
                roots,
                final(tracker)@.nodes(),
                pending_scopes,
                final(pending_values)@,
                Some(from),
            ),
            !final(tracker)@.nodes().contains(Node::Cell(h)),
            final(tracker)@.nodes().subset_of(old(tracker)@.nodes()),
            2 * final(tracker).size() + final(pending_values)@.len() <= 2 * old(tracker).size()
                + old(pending_values)@.len(),
    {
        let ghost before = tracker@.nodes();
        let ghost queue = pending_values@;
        if tracker.take_value(h) {
            pending_values.push(h);
            proof {
                let after = tracker@.nodes();
                let target = Node::Cell(h);
                assert(start.contains(target));
                assert(start.contains(from) && !before.contains(from));
                assert(reaches(self@, scopes@, start, roots, from));
                lemma_reaches_step(self@, scopes@, start, roots, from, target);
                assert(pending_values@.last() == h);
                assert forall|n: Node| before.contains(n) && n != target implies after.contains(
                    n,
                ) by {}
                assert forall|n: Node| is_pending(pending_scopes, queue, n) implies is_pending(
                    pending_scopes,
                    pending_values@,
                    n,
                ) by {
                    match n {
                        Node::Frame(s) => {},
                        Node::Cell(k) => {
                            let i = choose|i: int| 0 <= i < queue.len() && queue[i] == k;
                            assert(pending_values@[i] == k);
                        },
                    }
                }
                assert forall|n: Node|
                    start.contains(n) && !after.contains(n) implies is_pending(
                    pending_scopes,
                    pending_values@,
                    n,
                ) || Some(from) == Some(n) || #[trigger] is_done(
                    self@,
                    scopes@,
                    start,
                    after,
                    n,
                ) by {
                    if n == target {
                    } else {
                        assert(!before.contains(n));
                        if is_done(self@, scopes@, start, before, n) {
                            assert(is_done(self@, scopes@, start, after, n));
                        }
                    }
                }
                assert forall|n: Node| #[trigger]
                    is_pending(pending_scopes, pending_values@, n) implies start.contains(n)
                    && !after.contains(n) by {
                    match n {
                        Node::Frame(s) => {
                            assert(is_pending(pending_scopes, queue, n));
                        },
                        Node::Cell(k) => {
                            if k != h {
                                let i = choose|i: int|
                                    0 <= i < pending_values@.len() && pending_values@[i] == k;
                                assert(queue[i] == k);
                                assert(is_pending(pending_scopes, queue, n));
                            }
                        },
                    }
                }
            }
        } else {
            proof {
                assert(tracker@.nodes() =~= before);
            }
        }
    }

    /// Strikes the frame `s`, which the node `from` refers to, off the
    /// candidates, and queues it if it was one.
    fn strike_scope(
        &self,
        scopes: &ScopeList,
        tracker: &mut CollectTracker,
        pending_scopes: &mut Vec<RegIndex>,
        s: RegIndex,
        Ghost(start): Ghost<Set<Node>>,
        Ghost(roots): Ghost<Set<Node>>,
        Ghost(pending_values): Ghost<Seq<RegIndex>>,
        Ghost(from): Ghost<Node>,
    )
        requires
            walk_invariant(
                self@,
                scopes@,
                start,
                roots,
                old(tracker)@.nodes(),
                old(pending_scopes)@,
                pending_values,
                Some(from),
            ),
            edge(self@, scopes@, from, Node::Frame(s)),
        ensures
            walk_invariant(
                self@,
                scopes@,
                start,
                roots,
                final(tracker)@.nodes(),
                final(pending_scopes)@,
                pending_values,
                Some(from),
            ),
            !final(tracker)@.nodes().contains(Node::Frame(s)),
            final(tracker)@.nodes().subset_of(old(tracker)@.nodes()),
            2 * final(tracker).size() + final(pending_scopes)@.len() <= 2 * old(tracker).size()
                + old(pending_scopes)@.len(),
    {
        let ghost before = tracker@.nodes();
        let ghost queue = pending_scopes@;
        if tracker.take_scope(s) {
            pending_scopes.push(s);
            proof {
                let after = tracker@.nodes();
                let target = Node::Frame(s);
                assert(start.contains(target));
                assert(start.contains(from) && !before.contains(from));
                assert(reaches(self@, scopes@, start, roots, from));
                lemma_reaches_step(self@, scopes@, start, roots, from, target);
                assert(pending_scopes@.last() == s);
                assert forall|n: Node| before.contains(n) && n != target implies after.contains(
                    n,
                ) by {}
                assert forall|n: Node| is_pending(queue, pending_values, n) implies is_pending(
                    pending_scopes@,
                    pending_values,
                    n,
                ) by {
                    match n {
                        Node::Cell(k) => {},
                        Node::Frame(k) => {
                            let i = choose|i: int| 0 <= i < queue.len() && queue[i] == k;
                            assert(pending_scopes@[i] == k);
                        },
                    }
                }
                assert forall|n: Node|
                    start.contains(n) && !after.contains(n) implies is_pending(
                    pending_scopes@,
                    pending_values,
                    n,
                ) || Some(from) == Some(n) || #[trigger] is_done(
                    self@,
                    scopes@,
                    start,
                    after,
                    n,
                ) by {
                    if n == target {
                    } else {
                        assert(!before.contains(n));
                        if is_done(self@, scopes@, start, before, n) {
                            assert(is_done(self@, scopes@, start, after, n));
                        }
                    }
                }
                assert forall|n: Node| #[trigger]
                    is_pending(pending_scopes@, pending_values, n) implies start.contains(n)
                    && !after.contains(n) by {
                    match n {
                        Node::Cell(k) => {
                            assert(is_pending(queue, pending_values, n));
                        },
                        Node::Frame(k) => {
                            if k != s {
                                let i = choose|i: int|
                                    0 <= i < pending_scopes@.len() && pending_scopes@[i] == k;
                                assert(queue[i] == k);
                                assert(is_pending(queue, pending_values, n));
                            }
                        },
                    }
                }
            }
        } else {
            proof {
                assert(tracker@.nodes() =~= before);
            }
        }
    }

    /// Works on the frame `s`: strikes off what it binds, its parent and
    /// its caller.
    fn expand_scope(
        &self,
        scopes: &ScopeList,
        tracker: &mut CollectTracker,
        pending_scopes: &mut Vec<RegIndex>,
        pending_values: &mut Vec<RegIndex>,
        s: RegIndex,
        Ghost(start): Ghost<Set<Node>>,
        Ghost(roots): Ghost<Set<Node>>,
    )
        requires
            walk_invariant(
                self@,
                scopes@,
                start,
                roots,
                old(tracker)@.nodes(),
                old(pending_scopes)@,
                old(pending_values)@,
                Some(Node::Frame(s)),
            ),
        ensures
            walk_invariant(
                self@,
                scopes@,
                start,
                roots,
                final(tracker)@.nodes(),
                final(pending_scopes)@,
                final(pending_values)@,
                None,
            ),
            final(tracker)@.nodes().subset_of(old(tracker)@.nodes()),
            2 * final(tracker).size() + final(pending_scopes)@.len() + final(pending_values)@.len()
                <= 2 * old(tracker).size() + old(pending_scopes)@.len() + old(
                pending_values,
            )@.len(),
    {
        let ghost from = Node::Frame(s);
        let ghost entry = tracker@.nodes();
        let ghost budget = 2 * tracker.size() + pending_scopes@.len() + pending_values@.len();
        match scopes.frame(s) {
            None => {},
            Some(frame) => {
                let handles = frame.handles();
                let mut i: usize = 0;
                while i < handles.len()
                    invariant
                        i <= handles.len(),
                        walk_invariant(
                            self@,
                            scopes@,
                            start,
                            roots,
                            tracker@.nodes(),
                            pending_scopes@,
                            pending_values@,
                            Some(from),
                        ),
                        from == Node::Frame(s),
                        scopes@.frames.contains_key(s),
                        forall|h: RegIndex|
                            handles@.contains(h) <==> scopes@.frames[s].vars.contains_value(h),
                        forall|j: int|
                            0 <= j < i ==> !tracker@.nodes().contains(Node::Cell(handles@[j])),
                        tracker@.nodes().subset_of(entry),
                        2 * tracker.size() + pending_scopes@.len() + pending_values@.len()
                            <= budget,
                    decreases handles.len() - i,
                {
                    assert(handles@.contains(handles@[i as int]));
                    self.strike_value(
                        scopes,
                        tracker,
                        pending_values,
                        handles[i],
                        Ghost(start),
                        Ghost(roots),
                        Ghost(pending_scopes@),
                        Ghost(from),
                    );
                    i = i + 1;
                }
                match frame.parent() {
                    Some(parent) => {
                        self.strike_scope(
                            scopes,
                            tracker,
                            pending_scopes,
                            parent,
                            Ghost(start),
                            Ghost(roots),
                            Ghost(pending_values@),
                            Ghost(from),
                        );
                    },
                    None => {},
                }
                match frame.caller() {
                    Some(caller) => {
                        self.strike_scope(
                            scopes,
                            tracker,
                            pending_scopes,
                            caller,
                            Ghost(start),
                            Ghost(roots),
                            Ghost(pending_values@),
                            Ghost(from),
                        );
                    },
                    None => {},
                }
                proof {
                    assert forall|m: Node| #[trigger]
                        edge(self@, scopes@, from, m) && start.contains(
                            m,
                        ) implies !tracker@.nodes().contains(m) by {
                        match m {
                            Node::Cell(h) => {
                                assert(handles@.contains(h));
                                let j = choose|j: int| 0 <= j < handles@.len() && handles@[j] == h;
                                assert(!tracker@.nodes().contains(Node::Cell(handles@[j])));
                            },
                            Node::Frame(t) => {},
                        }
                    }
                }
            },
        }
        proof {
            assert(is_done(self@, scopes@, start, tracker@.nodes(), from));
            lemma_finish_node(
                self@,
                scopes@,
                start,
                roots,
                tracker@.nodes(),
                pending_scopes@,
                pending_values@,
                from,
            );
        }
    }

    /// Works on the cell `h`: strikes off the frame that a function
    /// captured, or the elements of an array.
    fn expand_value(
        &self,
        scopes: &ScopeList,
        tracker: &mut CollectTracker,
        pending_scopes: &mut Vec<RegIndex>,
        pending_values: &mut Vec<RegIndex>,
        h: RegIndex,
        Ghost(start): Ghost<Set<Node>>,
        Ghost(roots): Ghost<Set<Node>>,
    )
        requires
            walk_invariant(
                self@,
                scopes@,
                start,
                roots,
                old(tracker)@.nodes(),
                old(pending_scopes)@,
                old(pending_values)@,
                Some(Node::Cell(h)),
            ),
        ensures
            walk_invariant(
                self@,
                scopes@,
                start,
                roots,
                final(tracker)@.nodes(),
                final(pending_scopes)@,
                final(pending_values)@,
                None,
            ),
            final(tracker)@.nodes().subset_of(old(tracker)@.nodes()),
            2 * final(tracker).size() + final(pending_scopes)@.len() + final(pending_values)@.len()
                <= 2 * old(tracker).size() + old(pending_scopes)@.len() + old(
                pending_values,
            )@.len(),
    {
        let ghost from = Node::Cell(h);
        let ghost entry = tracker@.nodes();
        let ghost budget = 2 * tracker.size() + pending_scopes@.len() + pending_values@.len();
        match self.lookup(h) {
            Some(Value::Function { scope_id, .. }) => {
                self.strike_scope(
                    scopes,
                    tracker,
                    pending_scopes,
                    *scope_id,
                    Ghost(start),
                    Ghost(roots),
                    Ghost(pending_values@),
                    Ghost(from),
                );
            },
            Some(Value::Array(elements)) => {
                let mut i: usize = 0;
                while i < elements.len()
                    invariant
                        i <= elements.len(),
                        walk_invariant(
                            self@,
                            scopes@,
                            start,
                            roots,
                            tracker@.nodes(),
                            pending_scopes@,
                            pending_values@,
                            Some(from),
                        ),
                        from == Node::Cell(h),
                        self@.cells.contains_key(h),
                        self@.cells[h] == ValueModel::Array(elements@),
                        forall|j: int|
                            0 <= j < i ==> !tracker@.nodes().contains(Node::Cell(elements@[j])),
                        tracker@.nodes().subset_of(entry),
                        2 * tracker.size() + pending_scopes@.len() + pending_values@.len()
                            <= budget,
                    decreases elements.len() - i,
                {
                    assert(elements@.contains(elements@[i as int]));
                    self.strike_value(
                        scopes,
                        tracker,
                        pending_values,
                        elements[i],
                        Ghost(start),
                        Ghost(roots),
                        Ghost(pending_scopes@),
                        Ghost(from),
                    );
                    i = i + 1;
                }
                proof {
                    assert forall|m: Node| #[trigger]
                        edge(self@, scopes@, from, m) && start.contains(
                            m,
                        ) implies !tracker@.nodes().contains(m) by {
                        match m {
                            Node::Cell(k) => {
                                let j = choose|j: int|
                                    0 <= j < elements@.len() && elements@[j] == k;
                                assert(!tracker@.nodes().contains(Node::Cell(elements@[j])));
                            },
                            Node::Frame(t) => {},
                        }
                    }
                }
            },
            _ => {},
        }
        proof {
            assert(is_done(self@, scopes@, start, tracker@.nodes(), from));
            lemma_finish_node(
                self@,
                scopes@,
                start,
                roots,
                tracker@.nodes(),
                pending_scopes@,
                pending_values@,
                from,
            );
        }
    }

    /// Runs the walk to its end: works on queued nodes until none is left.
    fn walk(
        &self,
        scopes: &ScopeList,
        tracker: &mut CollectTracker,
        pending_scopes: Vec<RegIndex>,
        pending_values: Vec<RegIndex>,
        Ghost(start): Ghost<Set<Node>>,
        Ghost(roots): Ghost<Set<Node>>,
    )
        requires
            walk_invariant(
                self@,
                scopes@,
                start,
                roots,
                old(tracker)@.nodes(),
                pending_scopes@,
                pending_values@,
                None,
            ),
        ensures
            forall|n: Node|
                final(tracker)@.nodes().contains(n) <==> start.contains(n) && !reaches(
                    self@,
                    scopes@,
                    start,
                    roots,
                    n,
                ),
    {
        let mut pending_scopes = pending_scopes;
        let mut pending_values = pending_values;
        loop
            invariant
                walk_invariant(
                    self@,
                    scopes@,
                    start,
                    roots,
                    tracker@.nodes(),
                    pending_scopes@,
                    pending_values@,
                    None,
                ),
            ensures
                pending_scopes@.len() == 0,
                pending_values@.len() == 0,
            decreases 2 * tracker.size() + pending_scopes@.len() + pending_values@.len(),
        {
            if pending_scopes.len() > 0 {
                let ghost queue = pending_scopes@;
                let s = pending_scopes.pop().unwrap();
                proof {
                    let from = Node::Frame(s);
                    let unvisited = tracker@.nodes();
                    assert(queue.last() == s);
                    assert(is_pending(queue, pending_values@, from));
                    assert forall|n: Node| #[trigger]
                        is_pending(pending_scopes@, pending_values@, n) implies is_pending(
                        queue,
                        pending_values@,
                        n,
                    ) by {
                        match n {
                            Node::Frame(t) => {
                                let i = choose|i: int|
                                    0 <= i < pending_scopes@.len() && pending_scopes@[i] == t;
                                assert(queue[i] == t);
                            },
                            Node::Cell(k) => {},
                        }
                    }
                    assert forall|n: Node|
                        start.contains(n) && !unvisited.contains(n) implies is_pending(
                        pending_scopes@,
                        pending_values@,
                        n,
                    ) || Some(from) == Some(n) || #[trigger] is_done(
                        self@,
                        scopes@,
                        start,
                        unvisited,
                        n,
                    ) by {
                        if is_pending(queue, pending_values@, n) && n != from {
                            match n {
                                Node::Frame(t) => {
                                    let i = choose|i: int| 0 <= i < queue.len() && queue[i] == t;
                                    assert(pending_scopes@[i] == t);
                                },
                                Node::Cell(k) => {},
                            }
                        }
                    }
                }
                self.expand_scope(
                    scopes,
                    tracker,
                    &mut pending_scopes,
                    &mut pending_values,
                    s,
                    Ghost(start),
                    Ghost(roots),
                );
            } else if pending_values.len() > 0 {
                let ghost queue = pending_values@;
                let h = pending_values.pop().unwrap();
                proof {
                    let from = Node::Cell(h);
                    let unvisited = tracker@.nodes();
                    assert(queue.last() == h);
                    assert(is_pending(pending_scopes@, queue, from));
                    assert forall|n: Node| #[trigger]
                        is_pending(pending_scopes@, pending_values@, n) implies is_pending(
                        pending_scopes@,
                        queue,
                        n,
                    ) by {
                        match n {
                            Node::Cell(t) => {
                                let i = choose|i: int|
                                    0 <= i < pending_values@.len() && pending_values@[i] == t;
                                assert(queue[i] == t);
                            },
                            Node::Frame(k) => {},
                        }
                    }
                    assert forall|n: Node|
                        start.contains(n) && !unvisited.contains(n) implies is_pending(
                        pending_scopes@,
                        pending_values@,
                        n,
                    ) || Some(from) == Some(n) || #[trigger] is_done(
                        self@,
                        scopes@,
                        start,
                        unvisited,
                        n,
                    ) by {
                        if is_pending(pending_scopes@, queue, n) && n != from {
                            match n {
                                Node::Cell(t) => {
                                    let i = choose|i: int| 0 <= i < queue.len() && queue[i] == t;
                                    assert(pending_values@[i] == t);
                                },
                                Node::Frame(k) => {},
                            }
                        }
                    }
                }
                self.expand_value(
                    scopes,
                    tracker,
                    &mut pending_scopes,
                    &mut pending_values,
                    h,
                    Ghost(start),
                    Ghost(roots),
                );
            } else {
                break;
            }
        }
        proof {
            assert(pending_scopes@ =~= Seq::empty());
            assert(pending_values@ =~= Seq::empty());
            lemma_walk_complete(self@, scopes@, start, roots, tracker@.nodes());
        }
    }

    /// Marks from the frame `scope_id`: strikes the frame off the candidates
    /// of `tracker`, and with it every candidate that it reaches through
    /// candidates. The arena is left as it is.
    pub fn mark(&self, scopes: &mut ScopeList, scope_id: RegIndex, tracker: &mut CollectTracker)
        ensures
            final(scopes)@ == old(scopes)@,
            final(tracker)@ == old(tracker)@.marked_from(self@, old(scopes)@, scope_id),
    {
        let ghost root = Node::Frame(scope_id);
        let ghost start = tracker@.nodes().insert(root);
        let ghost roots = set![root];
        let ghost before = tracker@;
        tracker.take_scope(scope_id);
        let mut pending_scopes: Vec<RegIndex> = Vec::new();
        pending_scopes.push(scope_id);
        let pending_values: Vec<RegIndex> = Vec::new();
        proof {
            let unvisited = tracker@.nodes();
            assert(pending_scopes@[0] == scope_id);
            assert(is_pending(pending_scopes@, pending_values@, root));
            lemma_root_reaches(self@, scopes@, start, roots, root);
            assert forall|n: Node| start.contains(n) && !unvisited.contains(n) implies n
                == root by {
                match n {
                    Node::Frame(s) => {
                        if s != scope_id {
                            assert(before.nodes().contains(n));
                        }
                    },
                    Node::Cell(h) => {
                        assert(before.nodes().contains(n));
                    },
                }
            }
            assert forall|n: Node| #[trigger]
                is_pending(pending_scopes@, pending_values@, n) implies n == root by {
                match n {
                    Node::Frame(s) => {
                        let i = choose|i: int|
                            0 <= i < pending_scopes@.len() && pending_scopes@[i] == s;
                    },
                    Node::Cell(h) => {},
                }
            }
            assert(unvisited.subset_of(start)) by {
                assert forall|n: Node| unvisited.contains(n) implies start.contains(n) by {
                    assert(before.nodes().contains(n));
                }
            }
        }
        self.walk(
            &*scopes,
            tracker,
            pending_scopes,
            pending_values,
            Ghost(start),
            Ghost(roots),
        );
        proof {
            let goal = before.marked_from(self@, scopes@, scope_id);
            lemma_root_reaches(self@, scopes@, start, roots, root);
            assert(start == before.nodes().insert(Node::Frame(scope_id)));
            assert(roots == set![Node::Frame(scope_id)]);
            assert forall|s: RegIndex| tracker@.scopes.contains(s) <==> goal.scopes.contains(
                s,
            ) by {
                let n = Node::Frame(s);
                assert(tracker@.nodes().contains(n) <==> tracker@.scopes.contains(s));
                assert(before.nodes().contains(n) <==> before.scopes.contains(s));
                assert(tracker@.nodes().contains(n) <==> start.contains(n) && !reaches(
                    self@,
                    scopes@,
                    start,
                    roots,
                    n,
                ));
                assert(goal.scopes.contains(s) <==> before.scopes.contains(s) && !reaches(
                    self@,
                    scopes@,
                    start,
                    roots,
                    n,
                ));
            }
            assert forall|h: RegIndex| tracker@.values.contains(h) <==> goal.values.contains(
                h,
            ) by {
                let n = Node::Cell(h);
                assert(tracker@.nodes().contains(n) <==> tracker@.values.contains(h));
                assert(before.nodes().contains(n) <==> before.values.contains(h));
                assert(tracker@.nodes().contains(n) <==> start.contains(n) && !reaches(
                    self@,
                    scopes@,
                    start,
                    roots,
                    n,
                ));
                assert(goal.values.contains(h) <==> before.values.contains(h) && !reaches(
                    self@,
                    scopes@,
                    start,
                    roots,
                    n,
                ));
            }
            assert(tracker@.scopes =~= goal.scopes);
            assert(tracker@.values =~= goal.values);
        }
    }

    /// Queues the roots of a collection and strikes them off the candidates.
    fn seed(
        &self,
        scopes: &ScopeList,
        scope_id: RegIndex,
        tracker: &mut CollectTracker,
    ) -> (pending: (Vec<RegIndex>, Vec<RegIndex>))
        requires
            old(tracker)@.nodes() == live_nodes(self@, scopes@),
        ensures
            walk_invariant(
                self@,
                scopes@,
                live_nodes(self@, scopes@),
                gc_roots(self@, scope_id),
                final(tracker)@.nodes(),
                pending.0@,
                pending.1@,
                None,
            ),
    {
        let ghost start = live_nodes(self@, scopes@);
        let ghost roots = gc_roots(self@, scope_id);
        let mut pending_scopes: Vec<RegIndex> = Vec::new();
        let mut pending_values: Vec<RegIndex> = Vec::new();
        if tracker.take_scope(scope_id) {
            pending_scopes.push(scope_id);
            assert(pending_scopes@[0] == scope_id);
        }
        assert forall|n: Node| start.contains(n) && !tracker@.nodes().contains(n) implies n
            == Node::Frame(scope_id) && is_pending(pending_scopes@, pending_values@, n) by {
            match n {
                Node::Frame(s) => {},
                Node::Cell(h) => {},
            }
        }
        let mut i: usize = 0;
        while i < self.protected.len()
            invariant
                i <= self.protected@.len(),
                start == live_nodes(self@, scopes@),
                roots == gc_roots(self@, scope_id),
                tracker@.nodes().subset_of(start),
                !tracker@.nodes().contains(Node::Frame(scope_id)),
                forall|n: Node|
                    start.contains(n) && !tracker@.nodes().contains(n) ==> #[trigger] is_pending(
                        pending_scopes@,
                        pending_values@,
                        n,
                    ),
                forall|n: Node| #[trigger]
                    is_pending(pending_scopes@, pending_values@, n) ==> roots.contains(n)
                        && start.contains(n) && !tracker@.nodes().contains(n),
                forall|a: int, b: int|
                    0 <= a < i && 0 <= b < self.protected@[a]@.len() ==> !tracker@.nodes().contains(
                        Node::Cell(#[trigger] self.protected@[a]@[b]),
                    ),
            decreases self.protected.len() - i,
        {
            let frame = &self.protected[i];
            let mut j: usize = 0;
            while j < frame.len()
                invariant
                    i < self.protected@.len(),
                    frame@ == self.protected@[i as int]@,
                    j <= frame@.len(),
                    start == live_nodes(self@, scopes@),
                    roots == gc_roots(self@, scope_id),
                    tracker@.nodes().subset_of(start),
                    !tracker@.nodes().contains(Node::Frame(scope_id)),
                    forall|n: Node|
                        start.contains(n) && !tracker@.nodes().contains(n)
                            ==> #[trigger] is_pending(pending_scopes@, pending_values@, n),
                    forall|n: Node| #[trigger]
                        is_pending(pending_scopes@, pending_values@, n) ==> roots.contains(n)
                            && start.contains(n) && !tracker@.nodes().contains(n),
                    forall|a: int, b: int|
                        0 <= a < i && 0 <= b < self.protected@[a]@.len()
                            ==> !tracker@.nodes().contains(
                            Node::Cell(#[trigger] self.protected@[a]@[b]),
                        ),
                    forall|b: int|
                        0 <= b < j ==> !tracker@.nodes().contains(Node::Cell(#[trigger] frame@[b])),
                decreases frame.len() - j,
            {
                let h = frame[j];
                let ghost before = tracker@.nodes();
                let ghost queue = pending_values@;
                if tracker.take_value(h) {
                    pending_values.push(h);
                    proof {
                        let after = tracker@.nodes();
                        let target = Node::Cell(h);
                        assert(pending_values@.last() == h);
                        assert(self@.protected[i as int].contains(h)) by {
                            assert(self@.protected[i as int][j as int] == h);
                        }
                        assert(is_protected(self@, h));
                        assert(roots.contains(target));
                        assert forall|n: Node|
                            before.contains(n) && n != target implies after.contains(n) by {}
                        assert forall|n: Node|
                            is_pending(pending_scopes@, queue, n) implies is_pending(
                            pending_scopes@,
                            pending_values@,
                            n,
                        ) by {
                            match n {
                                Node::Frame(s) => {},
                                Node::Cell(k) => {
                                    let x = choose|x: int| 0 <= x < queue.len() && queue[x] == k;
                                    assert(pending_values@[x] == k);
                                },
                            }
                        }
                        assert forall|n: Node|
                            start.contains(n) && !after.contains(n) implies #[trigger] is_pending(
                            pending_scopes@,
                            pending_values@,
                            n,
                        ) by {
                            if n != target {
                                assert(!before.contains(n));
                                assert(is_pending(pending_scopes@, queue, n));
                            }
                        }
                        assert forall|n: Node| #[trigger]
                            is_pending(pending_scopes@, pending_values@, n) implies roots.contains(
                            n,
                        ) && start.contains(n) && !after.contains(n) by {
                            match n {
                                Node::Frame(s) => {
                                    assert(is_pending(pending_scopes@, queue, n));
                                },
                                Node::Cell(k) => {
                                    if k != h {
                                        let x = choose|x: int|
                                            0 <= x < pending_values@.len() && pending_values@[x]
                                                == k;
                                        assert(queue[x] == k);
                                        assert(is_pending(pending_scopes@, queue, n));
                                    }
                                },
                            }
                        }
                    }
                } else {
                    proof {
                        assert(tracker@.nodes() =~= before);
                    }
                }
                j = j + 1;
            }
            i = i + 1;
        }
        proof {
            let unvisited = tracker@.nodes();
            assert forall|n: Node|
                start.contains(n) && !unvisited.contains(n) implies #[trigger] reaches(
                self@,
                scopes@,
                start,
                roots,
                n,
            ) by {
                assert(is_pending(pending_scopes@, pending_values@, n));
                lemma_root_reaches(self@, scopes@, start, roots, n);
            }
            assert forall|n: Node| #[trigger] roots.contains(n) && start.contains(
                n,
            ) implies !unvisited.contains(n) by {
                match n {
                    Node::Frame(s) => {},
                    Node::Cell(h) => {
                        let a = choose|a: int|
                            0 <= a < self@.protected.len() && (#[trigger] self@.protected[a]).contains(
                                h,
                            );
                        let b = choose|b: int|
                            0 <= b < self@.protected[a].len() && self@.protected[a][b] == h;
                        assert(self.protected@[a]@[b] == h);
                    },
                }
            }
        }
        (pending_scopes, pending_values)
    }

    /// Removes the cells that are still candidates when the walk has ended.
    fn sweep_values(&mut self, doomed: &Vec<RegIndex>)
        ensures
            final(self)@ == (MemoryModel {
                cells: old(self)@.cells.remove_keys(doomed@.to_set()),
                last_amount: old(self)@.cells.remove_keys(doomed@.to_set()).dom().len() as usize,
                ..old(self)@
            }),
    {
        proof {
            use_type_invariant(&*self);
        }
        let mut register: HashMap<RegIndex, Value> = HashMap::new();
        core::mem::swap(&mut self.register, &mut register);
        let ghost before = register@;
        let mut i: usize = 0;
        assert(register@ =~= before.remove_keys(doomed@.take(0).to_set()));
        while i < doomed.len()
            invariant
                i <= doomed.len(),
                register@ == before.remove_keys(doomed@.take(i as int).to_set()),
            decreases doomed.len() - i,
        {
            proof {
                lemma_take_to_set(doomed@, i as int);
            }
            register.remove(&doomed[i]);
            assert(register@ =~= before.remove_keys(doomed@.take(i + 1).to_set()));
            i = i + 1;
        }
        proof {
            assert(doomed@.take(doomed@.len() as int) =~= doomed@);
            assert(cells_of(register@) =~= cells_of(before).remove_keys(doomed@.to_set()));
            assert(cells_of(register@).dom() =~= register@.dom());
        }
        self.last_amount = register.len();
        core::mem::swap(&mut self.register, &mut register);
    }

    /// The population on record since the last sweep.
    pub fn last_amount(&self) -> (res: usize)
        ensures
            res == self@.last_amount,
    {
        self.last_amount
    }

    /// Collects: keeps the frames and cells that can be reached from the
    /// frame `scope_id` or from a protected handle, removes all others, and
    /// puts the new population on record.
    pub fn collect(&mut self, scopes: &mut ScopeList, scope_id: RegIndex)
        ensures
            final(self)@ == old(self)@.collected(old(scopes)@, scope_id),
            final(scopes)@ == old(scopes)@.collected(old(self)@, scope_id),
    {
        let ghost memory = self@;
        let ghost arena = scopes@;
        let ghost start = live_nodes(memory, arena);
        let ghost roots = gc_roots(memory, scope_id);
        let mut tracker = CollectTracker::new(&*self, &*scopes);
        let pending = self.seed(&*scopes, scope_id, &mut tracker);
        self.walk(&*scopes, &mut tracker, pending.0, pending.1, Ghost(start), Ghost(roots));
        let doomed_scopes = tracker.remaining_scopes();
        let doomed_values = tracker.remaining_values();
        proof {
            assert forall|h: RegIndex|
                memory.cells.contains_key(h) implies (doomed_values@.to_set().contains(h)
                <==> !memory.surviving(arena, scope_id).contains(h)) by {
                assert(tracker@.nodes().contains(Node::Cell(h)) <==> tracker@.values.contains(h));
                assert(start.contains(Node::Cell(h)));
            }
            assert(memory.cells.remove_keys(doomed_values@.to_set()) =~= memory.cells.restrict(
                memory.surviving(arena, scope_id),
            ));
            assert forall|s: RegIndex|
                arena.frames.contains_key(s) implies (doomed_scopes@.to_set().contains(s)
                <==> !arena.surviving(memory, scope_id).contains(s)) by {
                assert(tracker@.nodes().contains(Node::Frame(s)) <==> tracker@.scopes.contains(s));
                assert(start.contains(Node::Frame(s)));
            }
            assert(arena.frames.remove_keys(doomed_scopes@.to_set()) =~= arena.frames.restrict(
                arena.surviving(memory, scope_id),
            ));
        }
        scopes.sweep(&doomed_scopes);
        self.sweep_values(&doomed_values);
    }
}

impl ScopeList {
    /// Removes the frames that are still candidates when the walk has ended.
    fn sweep(&mut self, doomed: &Vec<RegIndex>)
        ensures
            final(self)@ == (ScopesModel {
                frames: old(self)@.frames.remove_keys(doomed@.to_set()),
                ..old(self)@
            }),
    {
        proof {
            use_type_invariant(&*self);
        }
        let mut register: HashMap<RegIndex, Scope> = HashMap::new();
        core::mem::swap(&mut self.register, &mut register);
        let ghost before = register@;
        let mut i: usize = 0;
        assert(register@ =~= before.remove_keys(doomed@.take(0).to_set()));
        while i < doomed.len()
            invariant
                i <= doomed.len(),
                register@ == before.remove_keys(doomed@.take(i as int).to_set()),
            decreases doomed.len() - i,
        {
            proof {
                lemma_take_to_set(doomed@, i as int);
            }
            register.remove(&doomed[i]);
            assert(register@ =~= before.remove_keys(doomed@.take(i + 1).to_set()));
            i = i + 1;
        }
        proof {
            assert(doomed@.take(doomed@.len() as int) =~= doomed@);
            assert(frames_of(register@) =~= frames_of(before).remove_keys(doomed@.to_set()));
        }
        core::mem::swap(&mut self.register, &mut register);
    }
}

} // verus!

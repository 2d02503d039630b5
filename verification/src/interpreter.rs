//! The heap of values, the arena of scope frames, and their collector.

use vstd::prelude::*;
use std::collections::HashMap;
use std::collections::HashSet;
use vstd::std_specs::hash::*;
use vstd::std_specs::iter::IteratorSpec;
use crate::value::{RegIndex, Value, ValueModel};
use crate::errors::BaseError;

pub mod collector;

pub use crate::evaluator::machine::start_execute;

verus! {

broadcast use vstd::std_specs::hash::group_hash_axioms;

/// What an evaluation yields: a value or an error.
pub type ValueResult = Result<Value, BaseError>;

/// Number of values by which the heap may grow after a sweep before the
/// evaluator collects again.
pub const THRESHOLD: usize = 50000;

/// One lexical activation record.
#[derive(Debug)]
pub struct Scope {
    parent_id: Option<RegIndex>,
    caller_id: Option<RegIndex>,
    vars: Vec<(String, RegIndex)>,
}

/// Mathematical model of a [`Scope`].
pub struct ScopeModel {
    /// The lexically enclosing frame: the only link that name lookup follows.
    pub parent_id: Option<RegIndex>,
    /// The frame that was current when this one was made: a root for the
    /// collector, never followed by lookup.
    pub caller_id: Option<RegIndex>,
    /// The bindings: name to value handle.
    pub vars: Map<Seq<char>, RegIndex>,
}

/// Whether entry `i` of a binding list binds `name`.
pub closed spec fn binds_at(vars: Seq<(String, RegIndex)>, name: Seq<char>, i: int) -> bool {
    0 <= i < vars.len() && vars[i].0@ == name
}

/// The mapping that a binding list stands for.
pub closed spec fn bindings_of(vars: Seq<(String, RegIndex)>) -> Map<Seq<char>, RegIndex> {
    Map::new(
        |name: Seq<char>| exists|i: int| binds_at(vars, name, i),
        |name: Seq<char>| vars[choose|i: int| binds_at(vars, name, i)].1,
    )
}

spec fn distinct_names(vars: Seq<(String, RegIndex)>) -> bool {
    forall|i: int, j: int| 0 <= i < j < vars.len() ==> vars[i].0@ != vars[j].0@
}

proof fn lemma_bindings_entry(vars: Seq<(String, RegIndex)>, i: int)
    requires
        distinct_names(vars),
        0 <= i < vars.len(),
    ensures
        bindings_of(vars).contains_key(vars[i].0@),
        bindings_of(vars)[vars[i].0@] == vars[i].1,
{
    let name = vars[i].0@;
    assert(binds_at(vars, name, i));
    let c = choose|k: int| binds_at(vars, name, k);
    assert(binds_at(vars, name, c));
    assert(c == i);
}

proof fn lemma_bindings_absent(vars: Seq<(String, RegIndex)>, name: Seq<char>)
    requires
        forall|i: int| 0 <= i < vars.len() ==> vars[i].0@ != name,
    ensures
        !bindings_of(vars).contains_key(name),
{
    assert forall|i: int| !binds_at(vars, name, i) by {}
}

proof fn lemma_bindings_push(vars: Seq<(String, RegIndex)>, entry: (String, RegIndex))
    requires
        distinct_names(vars),
        forall|i: int| 0 <= i < vars.len() ==> vars[i].0@ != entry.0@,
    ensures
        distinct_names(vars.push(entry)),
        bindings_of(vars.push(entry)) == bindings_of(vars).insert(entry.0@, entry.1),
{
    let after = vars.push(entry);
    assert(distinct_names(after));
    assert forall|name: Seq<char>|
        bindings_of(after).contains_key(name) <==> #[trigger] bindings_of(vars).insert(
            entry.0@,
            entry.1,
        ).contains_key(name) by {
        if bindings_of(after).contains_key(name) {
            let i = choose|i: int| binds_at(after, name, i);
            assert(binds_at(after, name, i));
            if i < vars.len() {
                assert(binds_at(vars, name, i));
            }
        }
        if bindings_of(vars).contains_key(name) {
            let i = choose|i: int| binds_at(vars, name, i);
            assert(binds_at(vars, name, i));
            assert(binds_at(after, name, i));
        }
        if name == entry.0@ {
            assert(binds_at(after, name, vars.len() as int));
        }
    }
    assert forall|name: Seq<char>| bindings_of(after).contains_key(name) implies bindings_of(
        after,
    )[name] == bindings_of(vars).insert(entry.0@, entry.1)[name] by {
        let i = choose|i: int| binds_at(after, name, i);
        assert(binds_at(after, name, i));
        lemma_bindings_entry(after, i);
        if i < vars.len() {
            lemma_bindings_entry(vars, i);
        }
    }
    assert(bindings_of(after) =~= bindings_of(vars).insert(entry.0@, entry.1));
}

proof fn lemma_bindings_update(vars: Seq<(String, RegIndex)>, k: int, entry: (String, RegIndex))
    requires
        distinct_names(vars),
        0 <= k < vars.len(),
        vars[k].0@ == entry.0@,
    ensures
        distinct_names(vars.update(k, entry)),
        bindings_of(vars.update(k, entry)) == bindings_of(vars).insert(entry.0@, entry.1),
{
    let after = vars.update(k, entry);
    assert(distinct_names(after));
    assert forall|name: Seq<char>|
        bindings_of(after).contains_key(name) <==> #[trigger] bindings_of(vars).insert(
            entry.0@,
            entry.1,
        ).contains_key(name) by {
        if bindings_of(after).contains_key(name) {
            let i = choose|i: int| binds_at(after, name, i);
            assert(binds_at(after, name, i));
            assert(binds_at(vars, name, i));
        }
        if bindings_of(vars).contains_key(name) {
            let i = choose|i: int| binds_at(vars, name, i);
            assert(binds_at(vars, name, i));
            assert(binds_at(after, name, i));
        }
        if name == entry.0@ {
            assert(binds_at(after, name, k));
        }
    }
    assert forall|name: Seq<char>| bindings_of(after).contains_key(name) implies bindings_of(
        after,
    )[name] == bindings_of(vars).insert(entry.0@, entry.1)[name] by {
        let i = choose|i: int| binds_at(after, name, i);
        assert(binds_at(after, name, i));
        lemma_bindings_entry(after, i);
        if i != k {
            lemma_bindings_entry(vars, i);
        }
    }
    assert(bindings_of(after) =~= bindings_of(vars).insert(entry.0@, entry.1));
}

impl View for Scope {
    type V = ScopeModel;

    closed spec fn view(&self) -> ScopeModel {
        ScopeModel {
            parent_id: self.parent_id,
            caller_id: self.caller_id,
            vars: bindings_of(self.vars@),
        }
    }
}

/// The model of a frame without bindings.
pub open spec fn empty_frame(parent_id: Option<RegIndex>, caller_id: Option<RegIndex>) -> ScopeModel {
    ScopeModel { parent_id, caller_id, vars: Map::empty() }
}

impl Scope {
    #[verifier::type_invariant]
    spec fn well_formed(self) -> bool {
        distinct_names(self.vars@)
    }

    /// The root frame: no parent, no caller, no bindings.
    pub fn new() -> (res: Self)
        ensures
            res@ == empty_frame(None, None),
    {
        let res = Scope { parent_id: None, caller_id: None, vars: Vec::new() };
        assert(res@.vars =~= Map::empty()) by {
            lemma_bindings_absent_all(res.vars@);
        }
        res
    }

    /// An empty frame below `parent_id`, made while `caller_id` was current.
    pub fn derived(parent_id: RegIndex, caller_id: RegIndex) -> (res: Self)
        ensures
            res@ == empty_frame(Some(parent_id), Some(caller_id)),
    {
        let res = Scope { parent_id: Some(parent_id), caller_id: Some(caller_id), vars: Vec::new() };
        assert(res@.vars =~= Map::empty()) by {
            lemma_bindings_absent_all(res.vars@);
        }
        res
    }

    /// The lexically enclosing frame.
    pub fn parent(&self) -> (res: Option<RegIndex>)
        ensures
            res == self@.parent_id,
    {
        self.parent_id
    }

    /// The frame that was current when this one was made.
    pub fn caller(&self) -> (res: Option<RegIndex>)
        ensures
            res == self@.caller_id,
    {
        self.caller_id
    }

    fn position(&self, name: &String) -> (res: Option<usize>)
        ensures
            match res {
                Some(i) => i < self.vars@.len() && self.vars@[i as int].0@ == name@,
                None => forall|i: int| 0 <= i < self.vars@.len() ==> self.vars@[i].0@ != name@,
            },
    {
        let mut i: usize = 0;
        while i < self.vars.len()
            invariant
                i <= self.vars@.len(),
                forall|j: int| 0 <= j < i ==> self.vars@[j].0@ != name@,
            decreases self.vars.len() - i,
        {
            if self.vars[i].0.eq(name) {
                return Some(i);
            }
            i = i + 1;
        }
        None
    }

    /// The handle bound to `name` in this frame alone.
    pub fn lookup(&self, name: &String) -> (res: Option<RegIndex>)
        ensures
            res == if self@.vars.contains_key(name@) {
                Some(self@.vars[name@])
            } else {
                None
            },
    {
        proof {
            use_type_invariant(self);
        }
        match self.position(name) {
            Some(i) => {
                proof {
                    lemma_bindings_entry(self.vars@, i as int);
                }
                Some(self.vars[i].1)
            },
            None => {
                proof {
                    lemma_bindings_absent(self.vars@, name@);
                }
                None
            },
        }
    }

    /// Binds `name` to `id` in this frame, replacing an earlier binding of it.
    pub fn bind(&mut self, name: String, id: RegIndex)
        ensures
            final(self)@ == (ScopeModel { vars: old(self)@.vars.insert(name@, id), ..old(self)@ }),
    {
        proof {
            use_type_invariant(&*self);
        }
        let found = self.position(&name);
        let mut vars: Vec<(String, RegIndex)> = Vec::new();
        core::mem::swap(&mut self.vars, &mut vars);
        match found {
            Some(i) => {
                proof {
                    lemma_bindings_update(vars@, i as int, (name, id));
                }
                vars.set(i, (name, id));
            },
            None => {
                proof {
                    lemma_bindings_push(vars@, (name, id));
                }
                vars.push((name, id));
            },
        }
        core::mem::swap(&mut self.vars, &mut vars);
    }

    /// The handles bound in this frame, each once per name that binds it.
    pub fn handles(&self) -> (res: Vec<RegIndex>)
        ensures
            forall|h: RegIndex| res@.contains(h) <==> self@.vars.contains_value(h),
    {
        proof {
            use_type_invariant(self);
        }
        let mut out: Vec<RegIndex> = Vec::new();
        let mut i: usize = 0;
        while i < self.vars.len()
            invariant
                i <= self.vars@.len(),
                out@.len() == i,
                forall|j: int| 0 <= j < i ==> out@[j] == self.vars@[j].1,
            decreases self.vars.len() - i,
        {
            out.push(self.vars[i].1);
            i = i + 1;
        }
        proof {
            assert forall|h: RegIndex| out@.contains(h) <==> self@.vars.contains_value(h) by {
                if out@.contains(h) {
                    let j = choose|j: int| 0 <= j < out@.len() && out@[j] == h;
                    lemma_bindings_entry(self.vars@, j);
                }
                if self@.vars.contains_value(h) {
                    let name = choose|name: Seq<char>|
                        self@.vars.contains_key(name) && self@.vars[name] == h;
                    let j = choose|j: int| binds_at(self.vars@, name, j);
                    assert(binds_at(self.vars@, name, j));
                    lemma_bindings_entry(self.vars@, j);
                    assert(out@[j] == h);
                }
            }
        }
        out
    }
}

/// Mathematical model of a [`Memory`].
pub struct MemoryModel {
    /// The last handle handed out.
    pub counter: RegIndex,
    /// The live values by handle.
    pub cells: Map<RegIndex, ValueModel>,
    /// The protected frames, innermost last: handles kept alive across a
    /// collection while a node is being evaluated.
    pub protected: Seq<Seq<RegIndex>>,
    /// The population right after the last sweep.
    pub last_amount: usize,
}

/// Mathematical model of a [`ScopeList`].
pub struct ScopesModel {
    /// The last handle handed out.
    pub counter: RegIndex,
    /// The live frames by handle.
    pub frames: Map<RegIndex, ScopeModel>,
}

/// The heap: values addressed by stable handles, and the protected stack.
#[derive(Debug)]
pub struct Memory {
    counter: RegIndex,
    register: HashMap<RegIndex, Value>,
    protected: Vec<Vec<RegIndex>>,
    last_amount: usize,
}

/// The arena of scope frames.
#[derive(Debug)]
pub struct ScopeList {
    counter: RegIndex,
    register: HashMap<RegIndex, Scope>,
}

/// The models of the values of a register.
pub closed spec fn cells_of(register: Map<RegIndex, Value>) -> Map<RegIndex, ValueModel> {
    register.map_values(|v: Value| v@)
}

/// The models of the frames of a register.
pub closed spec fn frames_of(register: Map<RegIndex, Scope>) -> Map<RegIndex, ScopeModel> {
    register.map_values(|s: Scope| s@)
}

/// The contents of a stack of protected frames.
pub closed spec fn protected_of(stack: Seq<Vec<RegIndex>>) -> Seq<Seq<RegIndex>> {
    Seq::new(stack.len(), |i: int| stack[i]@)
}

proof fn lemma_cells_insert(register: Map<RegIndex, Value>, id: RegIndex, value: Value)
    ensures
        cells_of(register.insert(id, value)) == cells_of(register).insert(id, value@),
{
    assert(cells_of(register.insert(id, value)) =~= cells_of(register).insert(id, value@));
}

proof fn lemma_frames_insert(register: Map<RegIndex, Scope>, id: RegIndex, scope: Scope)
    ensures
        frames_of(register.insert(id, scope)) == frames_of(register).insert(id, scope@),
{
    assert(frames_of(register.insert(id, scope)) =~= frames_of(register).insert(id, scope@));
}

impl View for Memory {
    type V = MemoryModel;

    closed spec fn view(&self) -> MemoryModel {
        MemoryModel {
            counter: self.counter,
            cells: cells_of(self.register@),
            protected: protected_of(self.protected@),
            last_amount: self.last_amount,
        }
    }
}

impl View for ScopeList {
    type V = ScopesModel;

    closed spec fn view(&self) -> ScopesModel {
        ScopesModel { counter: self.counter, frames: frames_of(self.register@) }
    }
}

impl MemoryModel {
    /// The heap after storing `value` under a fresh handle.
    pub open spec fn add(self, value: ValueModel) -> MemoryModel {
        MemoryModel {
            counter: (self.counter + 1) as RegIndex,
            cells: self.cells.insert((self.counter + 1) as RegIndex, value),
            ..self
        }
    }

    /// The heap after overwriting the cell `id`.
    pub open spec fn set(self, value: ValueModel, id: RegIndex) -> MemoryModel {
        MemoryModel { cells: self.cells.insert(id, value), ..self }
    }

    /// The heap after entering a node: one more protected frame, empty.
    pub open spec fn new_protected(self) -> MemoryModel {
        MemoryModel { protected: self.protected.push(Seq::empty()), ..self }
    }

    /// The heap after leaving a node: the innermost protected frame dropped.
    pub open spec fn pop_protected(self) -> MemoryModel {
        if self.protected.len() > 0 {
            MemoryModel { protected: self.protected.drop_last(), ..self }
        } else {
            self
        }
    }

    /// The heap after storing `value` under a fresh handle and recording the
    /// handle in the innermost protected frame.
    pub open spec fn protect(self, value: ValueModel) -> MemoryModel
        recommends
            self.protected.len() > 0,
    {
        let added = self.add(value);
        MemoryModel {
            protected: added.protected.update(
                added.protected.len() - 1,
                added.protected.last().push(added.counter),
            ),
            ..added
        }
    }

    /// Whether the population has outgrown the last sweep by more than the
    /// threshold.
    pub open spec fn over_threshold(self) -> bool {
        self.cells.dom().len() > THRESHOLD + self.last_amount
    }
}

impl Memory {
    #[verifier::type_invariant]
    spec fn well_formed(self) -> bool {
        forall|id: RegIndex| self.register@.contains_key(id) ==> id <= self.counter
    }

    /// An empty heap.
    pub fn new() -> (res: Self)
        ensures
            res@ == (MemoryModel {
                counter: 0,
                cells: Map::empty(),
                protected: Seq::empty(),
                last_amount: 0,
            }),
    {
        let res = Memory {
            counter: 0,
            register: HashMap::new(),
            protected: Vec::new(),
            last_amount: 0,
        };
        assert(res@.cells =~= Map::empty());
        assert(res@.protected =~= Seq::empty());
        res
    }

    /// The last handle handed out.
    pub fn counter(&self) -> (res: RegIndex)
        ensures
            res == self@.counter,
    {
        self.counter
    }

    /// Whether every handle has been handed out.
    pub fn is_full(&self) -> (res: bool)
        ensures
            res == (self@.counter == usize::MAX),
    {
        self.counter == usize::MAX
    }

    /// The number of live values.
    pub fn len(&self) -> (res: usize)
        ensures
            res == self@.cells.dom().len(),
    {
        assert(self@.cells.dom() =~= self.register@.dom());
        self.register.len()
    }

    /// Whether `id` addresses a live value.
    pub fn contains(&self, id: RegIndex) -> (res: bool)
        ensures
            res == self@.cells.contains_key(id),
    {
        self.register.contains_key(&id)
    }

    /// Stores `value` under a fresh handle and returns the handle.
    pub fn add(&mut self, value: Value) -> (id: RegIndex)
        requires
            old(self)@.counter < usize::MAX,
        ensures
            final(self)@ == old(self)@.add(value@),
            id == final(self)@.counter,
            !old(self)@.cells.contains_key(id),
    {
        proof {
            use_type_invariant(&*self);
            lemma_cells_insert(self.register@, (self.counter + 1) as RegIndex, value);
        }
        let id: RegIndex = self.counter + 1;
        let mut register: HashMap<RegIndex, Value> = HashMap::new();
        core::mem::swap(&mut self.register, &mut register);
        register.insert(id, value);
        self.counter = id;
        core::mem::swap(&mut self.register, &mut register);
        id
    }

    /// Overwrites the live cell `id` in place.
    pub fn set(&mut self, value: Value, id: RegIndex)
        requires
            old(self)@.cells.contains_key(id),
        ensures
            final(self)@ == old(self)@.set(value@, id),
    {
        proof {
            use_type_invariant(&*self);
            lemma_cells_insert(self.register@, id, value);
        }
        let mut register: HashMap<RegIndex, Value> = HashMap::new();
        core::mem::swap(&mut self.register, &mut register);
        register.insert(id, value);
        core::mem::swap(&mut self.register, &mut register);
    }

    /// The value in the live cell `id`.
    pub fn get(&self, id: RegIndex) -> (res: &Value)
        requires
            self@.cells.contains_key(id),
        ensures
            res@ == self@.cells[id],
    {
        let found = self.register.get(&id);
        found.unwrap()
    }

    /// The value in the cell `id`, if it is live.
    pub fn lookup(&self, id: RegIndex) -> (res: Option<&Value>)
        ensures
            match res {
                Some(value) => self@.cells.contains_key(id) && value@ == self@.cells[id],
                None => !self@.cells.contains_key(id),
            },
    {
        self.register.get(&id)
    }

    /// Enters a node: pushes an empty protected frame.
    pub fn new_protected(&mut self)
        ensures
            final(self)@ == old(self)@.new_protected(),
    {
        proof {
            use_type_invariant(&*self);
        }
        let mut protected: Vec<Vec<RegIndex>> = Vec::new();
        core::mem::swap(&mut self.protected, &mut protected);
        protected.push(Vec::new());
        core::mem::swap(&mut self.protected, &mut protected);
        assert(self@.protected =~= old(self)@.new_protected().protected);
    }

    /// Leaves a node: drops the innermost protected frame, if there is one.
    pub fn pop_protected(&mut self)
        ensures
            final(self)@ == old(self)@.pop_protected(),
    {
        proof {
            use_type_invariant(&*self);
        }
        let mut protected: Vec<Vec<RegIndex>> = Vec::new();
        core::mem::swap(&mut self.protected, &mut protected);
        protected.pop();
        core::mem::swap(&mut self.protected, &mut protected);
        assert(self@.protected =~= old(self)@.pop_protected().protected);
    }

    /// Drops every protected frame.
    pub fn clear_protected(&mut self)
        ensures
            final(self)@ == (MemoryModel { protected: Seq::empty(), ..old(self)@ }),
    {
        proof {
            use_type_invariant(&*self);
        }
        let mut protected: Vec<Vec<RegIndex>> = Vec::new();
        core::mem::swap(&mut self.protected, &mut protected);
        assert(self@.protected =~= Seq::empty());
    }

    /// The number of protected frames.
    pub fn protected_depth(&self) -> (res: usize)
        ensures
            res == self@.protected.len(),
    {
        self.protected.len()
    }

    /// Stores `value` under a fresh handle, records the handle in the
    /// innermost protected frame, and returns the handle.
    pub fn protect_id(&mut self, value: Value) -> (id: RegIndex)
        requires
            old(self)@.counter < usize::MAX,
            old(self)@.protected.len() > 0,
        ensures
            final(self)@ == old(self)@.protect(value@),
            id == final(self)@.counter,
            !old(self)@.cells.contains_key(id),
    {
        let id = self.add(value);
        proof {
            use_type_invariant(&*self);
        }
        let mut protected: Vec<Vec<RegIndex>> = Vec::new();
        core::mem::swap(&mut self.protected, &mut protected);
        let mut top: Vec<RegIndex> = protected.pop().unwrap();
        top.push(id);
        protected.push(top);
        core::mem::swap(&mut self.protected, &mut protected);
        assert(self@.protected =~= old(self)@.protect(value@).protected);
        id
    }

    /// Stores `value` under a fresh handle, records the handle in the
    /// innermost protected frame, and returns a copy of the stored value.
    pub fn protect(&mut self, value: Value) -> (res: Value)
        requires
            old(self)@.counter < usize::MAX,
            old(self)@.protected.len() > 0,
        ensures
            final(self)@ == old(self)@.protect(value@),
            res@ == value@,
    {
        let id = self.protect_id(value);
        self.get(id).clone()
    }

    /// Whether the population has outgrown the last sweep by more than the
    /// threshold.
    pub fn over_threshold(&self) -> (res: bool)
        ensures
            res == self@.over_threshold(),
    {
        let population = self.len();
        population > THRESHOLD && population - THRESHOLD > self.last_amount
    }
}

/// The handle that `name` resolves to from the frame `scope`: the binding in
/// the nearest frame along the parent links, if there is one. Frames are
/// numbered in the order of their creation, so a parent's handle lies below
/// its child's and the walk ends.
pub open spec fn lookup_binding(
    frames: Map<RegIndex, ScopeModel>,
    name: Seq<char>,
    scope: RegIndex,
) -> Option<RegIndex>
    decreases scope,
{
    if !frames.contains_key(scope) {
        None
    } else if frames[scope].vars.contains_key(name) {
        Some(frames[scope].vars[name])
    } else {
        match frames[scope].parent_id {
            Some(parent) => if parent < scope {
                lookup_binding(frames, name, parent)
            } else {
                None
            },
            None => None,
        }
    }
}

impl ScopesModel {
    /// The arena after adding an empty frame below `parent`, made while
    /// `caller` was current.
    pub open spec fn derive(self, parent: RegIndex, caller: RegIndex) -> ScopesModel {
        ScopesModel {
            counter: (self.counter + 1) as RegIndex,
            frames: self.frames.insert(
                (self.counter + 1) as RegIndex,
                empty_frame(Some(parent), Some(caller)),
            ),
        }
    }

    /// The arena after binding `name` to `id` in the live frame `scope`.
    pub open spec fn bind(self, scope: RegIndex, name: Seq<char>, id: RegIndex) -> ScopesModel
        recommends
            self.frames.contains_key(scope),
    {
        ScopesModel {
            frames: self.frames.insert(
                scope,
                ScopeModel { vars: self.frames[scope].vars.insert(name, id), ..self.frames[scope] },
            ),
            ..self
        }
    }
}

/// The outcome of an assignment to a name: the arena, the heap, and whether
/// anything was assigned.
pub struct Assigned {
    pub scopes: ScopesModel,
    pub memory: MemoryModel,
    pub done: bool,
}

/// Assignment to `name` from the frame `scope`. Where the name resolves, the
/// cell it resolves to is overwritten. Where it does not, and `create` is
/// set, a fresh cell is bound to the name in `scope` itself.
pub open spec fn assign(
    scopes: ScopesModel,
    memory: MemoryModel,
    name: Seq<char>,
    scope: RegIndex,
    value: ValueModel,
    create: bool,
) -> Assigned {
    match lookup_binding(scopes.frames, name, scope) {
        Some(id) => if memory.cells.contains_key(id) {
            Assigned { scopes, memory: memory.set(value, id), done: true }
        } else {
            Assigned { scopes, memory, done: false }
        },
        None => if create && scopes.frames.contains_key(scope) {
            Assigned {
                scopes: scopes.bind(scope, name, (memory.counter + 1) as RegIndex),
                memory: memory.add(value),
                done: true,
            }
        } else {
            Assigned { scopes, memory, done: false }
        },
    }
}

/// Local assignment to `name` in the frame `scope`: a fresh cell is bound to
/// the name in that frame, whatever the enclosing frames bind.
pub open spec fn assign_local(
    scopes: ScopesModel,
    memory: MemoryModel,
    name: Seq<char>,
    scope: RegIndex,
    value: ValueModel,
) -> Assigned {
    if scopes.frames.contains_key(scope) {
        Assigned {
            scopes: scopes.bind(scope, name, (memory.counter + 1) as RegIndex),
            memory: memory.add(value),
            done: true,
        }
    } else {
        Assigned { scopes, memory, done: false }
    }
}

impl ScopeList {
    #[verifier::type_invariant]
    spec fn well_formed(self) -> bool {
        forall|id: RegIndex| #[trigger]
            self.register@.contains_key(id) ==> id <= self.counter && (
            self.register@[id].parent_id matches Some(parent) ==> parent < id)
    }

    /// An arena that holds the root frame alone, at handle 0.
    pub fn new() -> (res: Self)
        ensures
            res@ == (ScopesModel { counter: 0, frames: map![0usize => empty_frame(None, None)] }),
    {
        let mut register: HashMap<RegIndex, Scope> = HashMap::new();
        let root = Scope::new();
        proof {
            lemma_frames_insert(register@, 0, root);
            assert(frames_of(register@) =~= Map::empty());
        }
        register.insert(0, root);
        ScopeList { counter: 0, register }
    }

    /// The last handle handed out.
    pub fn counter(&self) -> (res: RegIndex)
        ensures
            res == self@.counter,
    {
        self.counter
    }

    /// Whether `id` addresses a live frame.
    pub fn contains(&self, id: RegIndex) -> (res: bool)
        ensures
            res == self@.frames.contains_key(id),
    {
        self.register.contains_key(&id)
    }

    /// The number of live frames.
    pub fn len(&self) -> (res: usize)
        ensures
            res == self@.frames.dom().len(),
    {
        assert(self@.frames.dom() =~= self.register@.dom());
        self.register.len()
    }

    /// The frame `id`, if it is live.
    pub fn frame(&self, id: RegIndex) -> (res: Option<&Scope>)
        ensures
            match res {
                Some(scope) => self@.frames.contains_key(id) && scope@ == self@.frames[id],
                None => !self@.frames.contains_key(id),
            },
    {
        self.register.get(&id)
    }

    /// Whether a frame can be derived below `parent_id`: a handle is left, and
    /// `parent_id` is one that this arena has handed out.
    pub fn can_derive(&self, parent_id: RegIndex) -> (res: bool)
        ensures
            res == (self@.counter < usize::MAX && parent_id <= self@.counter),
    {
        self.counter < usize::MAX && parent_id <= self.counter
    }

    /// Resolves `name` from the frame `scope_id` along the parent links.
    pub fn get_var_id(&self, name: String, scope_id: RegIndex) -> (res: Option<RegIndex>)
        ensures
            res == lookup_binding(self@.frames, name@, scope_id),
    {
        proof {
            use_type_invariant(self);
        }
        let mut current: RegIndex = scope_id;
        loop
            invariant
                lookup_binding(self@.frames, name@, current) == lookup_binding(
                    self@.frames,
                    name@,
                    scope_id,
                ),
                self.well_formed(),
            decreases current,
        {
            match self.register.get(&current) {
                None => {
                    return None;
                },
                Some(scope) => {
                    match scope.lookup(&name) {
                        Some(id) => {
                            return Some(id);
                        },
                        None => {
                            match scope.parent() {
                                Some(parent) => {
                                    assert(self.register@.contains_key(current));
                                    current = parent;
                                },
                                None => {
                                    return None;
                                },
                            }
                        },
                    }
                },
            }
        }
    }

    fn bind(&mut self, scope_id: RegIndex, name: String, id: RegIndex)
        requires
            old(self)@.frames.contains_key(scope_id),
        ensures
            final(self)@ == old(self)@.bind(scope_id, name@, id),
    {
        proof {
            use_type_invariant(&*self);
        }
        let mut register: HashMap<RegIndex, Scope> = HashMap::new();
        core::mem::swap(&mut self.register, &mut register);
        let ghost before = register@;
        let mut scope = register.remove(&scope_id).unwrap();
        scope.bind(name, id);
        proof {
            lemma_frames_insert(register@, scope_id, scope);
            assert(register@.insert(scope_id, scope) =~= before.insert(scope_id, scope));
            lemma_frames_insert(before, scope_id, scope);
        }
        register.insert(scope_id, scope);
        assert forall|k: RegIndex| #[trigger] register@.contains_key(k) implies k <= self.counter
            && (register@[k].parent_id matches Some(parent) ==> parent < k) by {
            if k != scope_id {
                assert(before.contains_key(k));
            } else {
                assert(before.contains_key(scope_id));
            }
        }
        core::mem::swap(&mut self.register, &mut register);
    }

    /// Assigns `value` to `name` from the frame `scope_id`: the nearest
    /// binding along the parent links is written through; without one, and
    /// with `first_call` set, the name is bound in `scope_id` to a fresh cell.
    /// Returns whether anything was assigned.
    pub fn set_var(
        &mut self,
        name: String,
        scope_id: RegIndex,
        memory: &mut Memory,
        value: &Value,
        first_call: bool,
    ) -> (res: bool)
        requires
            old(memory)@.counter < usize::MAX,
        ensures
            (Assigned { scopes: final(self)@, memory: final(memory)@, done: res }) == assign(
                old(self)@,
                old(memory)@,
                name@,
                scope_id,
                value@,
                first_call,
            ),
    {
        match self.get_var_id(name.clone(), scope_id) {
            Some(id) => {
                if memory.contains(id) {
                    memory.set(value.clone(), id);
                    true
                } else {
                    false
                }
            },
            None => {
                if first_call && self.contains(scope_id) {
                    let id = memory.add(value.clone());
                    self.bind(scope_id, name, id);
                    true
                } else {
                    false
                }
            },
        }
    }

    /// Binds `name` in the frame `scope_id` itself to a fresh cell that holds
    /// `value`. Returns whether the frame is live.
    pub fn set_var_local(
        &mut self,
        name: String,
        scope_id: RegIndex,
        memory: &mut Memory,
        value: &Value,
    ) -> (res: bool)
        requires
            old(memory)@.counter < usize::MAX,
        ensures
            (Assigned { scopes: final(self)@, memory: final(memory)@, done: res })
                == assign_local(old(self)@, old(memory)@, name@, scope_id, value@),
    {
        if self.contains(scope_id) {
            let id = memory.add(value.clone());
            self.bind(scope_id, name, id);
            true
        } else {
            false
        }
    }
}

/// Adds an empty frame whose parent is `scope_id` and whose caller is
/// `caller_id`, and returns its handle.
pub fn derive_scope(scope_id: RegIndex, caller_id: RegIndex, scopes: &mut ScopeList) -> (id:
    RegIndex)
    requires
        old(scopes)@.counter < usize::MAX,
        scope_id <= old(scopes)@.counter,
    ensures
        final(scopes)@ == old(scopes)@.derive(scope_id, caller_id),
        id == final(scopes)@.counter,
        !old(scopes)@.frames.contains_key(id),
{
    proof {
        use_type_invariant(&*scopes);
    }
    let id: RegIndex = scopes.counter + 1;
    let frame = Scope::derived(scope_id, caller_id);
    let mut register: HashMap<RegIndex, Scope> = HashMap::new();
    core::mem::swap(&mut scopes.register, &mut register);
    proof {
        lemma_frames_insert(register@, id, frame);
    }
    register.insert(id, frame);
    scopes.counter = id;
    core::mem::swap(&mut scopes.register, &mut register);
    id
}

/// The keys of a map, each once, in the order the map yields them.
fn keys_of<V>(m: &HashMap<RegIndex, V>) -> (res: Vec<RegIndex>)
    ensures
        res@.to_set() == m@.dom(),
        res@.no_duplicates(),
{
    let mut out: Vec<RegIndex> = Vec::new();
    for k in it: m.keys()
        invariant
            out@.len() == it.index(),
            forall|j: int| 0 <= j < out@.len() ==> out@[j] == *it.seq()[j],
    {
        out.push(*k);
    }
    assert(out@ =~= m.keys().remaining().unref());
    out
}

/// The members of a set, each once, in the order the set yields them.
fn members_of(s: &HashSet<RegIndex>) -> (res: Vec<RegIndex>)
    ensures
        res@.to_set() == s@,
        res@.no_duplicates(),
{
    let mut out: Vec<RegIndex> = Vec::new();
    for k in it: s.iter()
        invariant
            out@.len() == it.index(),
            forall|j: int| 0 <= j < out@.len() ==> out@[j] == *it.seq()[j],
    {
        out.push(*k);
    }
    assert(out@ =~= s.iter().remaining().unref());
    out
}

proof fn lemma_bindings_absent_all(vars: Seq<(String, RegIndex)>)
    requires
        vars.len() == 0,
    ensures
        bindings_of(vars) =~= Map::empty(),
{
    assert forall|name: Seq<char>| !bindings_of(vars).contains_key(name) by {
        lemma_bindings_absent(vars, name);
    }
}

} // verus!

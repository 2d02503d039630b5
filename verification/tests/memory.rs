use bluebat::interpreter::collector::{test_resolves, CollectTracker};
use bluebat::interpreter::{derive_scope, Memory, Scope, ScopeList};
use bluebat::parser::ASTNode;
use bluebat::value::Value;

fn number(x: f64) -> Value {
    Value::Number(x.to_bits())
}

fn as_number(value: &Value) -> f64 {
    match value {
        Value::Number(bits) => f64::from_bits(*bits),
        other => panic!("not a number: {:?}", other),
    }
}

#[test]
fn allocation_hands_out_fresh_handles() {
    let mut memory = Memory::new();
    assert_eq!(memory.len(), 0);
    let a = memory.add(number(1.0));
    let b = memory.add(number(2.0));
    assert_eq!(a, 1);
    assert_eq!(b, 2);
    assert_eq!(memory.counter(), 2);
    assert_eq!(memory.len(), 2);
    assert_eq!(as_number(memory.get(a)), 1.0);
    assert_eq!(as_number(memory.get(b)), 2.0);
    memory.set(number(5.0), a);
    assert_eq!(as_number(memory.get(a)), 5.0);
    assert_eq!(memory.len(), 2);
    assert!(memory.contains(b));
    assert!(!memory.contains(3));
    assert!(memory.lookup(3).is_none());
    assert!(!memory.is_full());
}

#[test]
fn protected_frames_nest() {
    let mut memory = Memory::new();
    memory.pop_protected();
    assert_eq!(memory.protected_depth(), 0);
    memory.new_protected();
    memory.new_protected();
    assert_eq!(memory.protected_depth(), 2);
    let copy = memory.protect(number(7.0));
    assert_eq!(as_number(&copy), 7.0);
    let id = memory.protect_id(number(8.0));
    assert_eq!(id, 2);
    assert_eq!(as_number(memory.get(id)), 8.0);
    memory.pop_protected();
    assert_eq!(memory.protected_depth(), 1);
    memory.clear_protected();
    assert_eq!(memory.protected_depth(), 0);
}

#[test]
fn lookup_climbs_the_parent_chain_only() {
    let mut memory = Memory::new();
    let mut scopes = ScopeList::new();
    assert!(scopes.contains(0));
    assert_eq!(scopes.len(), 1);
    scopes.set_var_local("a".to_string(), 0, &mut memory, &number(1.0));
    let child = derive_scope(0, 0, &mut scopes);
    let other = derive_scope(0, child, &mut scopes);
    assert_eq!(child, 1);
    assert_eq!(other, 2);
    scopes.set_var_local("b".to_string(), child, &mut memory, &number(2.0));
    assert_eq!(scopes.get_var_id("a".to_string(), child), Some(1));
    assert_eq!(scopes.get_var_id("b".to_string(), child), Some(2));
    assert_eq!(scopes.get_var_id("b".to_string(), 0), None);
    assert_eq!(scopes.get_var_id("b".to_string(), other), None);
    assert_eq!(scopes.get_var_id("a".to_string(), 9), None);
    let frame = scopes.frame(other).unwrap();
    assert_eq!(frame.parent(), Some(0));
    assert_eq!(frame.caller(), Some(child));
}

#[test]
fn assignment_overwrites_or_creates() {
    let mut memory = Memory::new();
    let mut scopes = ScopeList::new();
    scopes.set_var_local("a".to_string(), 0, &mut memory, &number(1.0));
    let child = derive_scope(0, 0, &mut scopes);
    assert!(scopes.set_var("a".to_string(), child, &mut memory, &number(2.0), true));
    assert_eq!(memory.len(), 1);
    assert_eq!(as_number(memory.get(1)), 2.0);
    assert!(!scopes.set_var("b".to_string(), child, &mut memory, &number(3.0), false));
    assert_eq!(memory.len(), 1);
    assert!(scopes.set_var("b".to_string(), child, &mut memory, &number(3.0), true));
    assert_eq!(scopes.get_var_id("b".to_string(), child), Some(2));
    assert_eq!(scopes.get_var_id("b".to_string(), 0), None);
    assert!(scopes.set_var_local("a".to_string(), child, &mut memory, &number(4.0)));
    assert_eq!(scopes.get_var_id("a".to_string(), child), Some(3));
    assert_eq!(scopes.get_var_id("a".to_string(), 0), Some(1));
    assert_eq!(as_number(memory.get(1)), 2.0);
    assert!(scopes.set_var_local("a".to_string(), child, &mut memory, &number(5.0)));
    assert_eq!(scopes.get_var_id("a".to_string(), child), Some(4));
    assert!(!scopes.set_var_local("a".to_string(), 77, &mut memory, &number(5.0)));
    assert!(!scopes.set_var("a".to_string(), 77, &mut memory, &number(5.0), true));
}

#[test]
fn scope_binds_and_rebinds() {
    let mut scope = Scope::new();
    assert_eq!(scope.parent(), None);
    assert_eq!(scope.caller(), None);
    assert_eq!(scope.lookup(&"x".to_string()), None);
    scope.bind("x".to_string(), 3);
    scope.bind("y".to_string(), 4);
    scope.bind("x".to_string(), 5);
    assert_eq!(scope.lookup(&"x".to_string()), Some(5));
    assert_eq!(scope.lookup(&"y".to_string()), Some(4));
    let mut handles = scope.handles();
    handles.sort();
    assert_eq!(handles, vec![4, 5]);
    let derived = Scope::derived(1, 2);
    assert_eq!(derived.parent(), Some(1));
    assert_eq!(derived.caller(), Some(2));
}

fn closure(scope_id: usize) -> Value {
    Value::Function {
        arg_names: vec![],
        code: Box::new(ASTNode::Constant { value: Value::Null }),
        scope_id,
    }
}

#[test]
fn collect_keeps_exactly_what_is_reachable() {
    let mut memory = Memory::new();
    let mut scopes = ScopeList::new();
    let one = memory.add(number(1.0));
    let two = memory.add(number(2.0));
    let array = Value::Array(vec![one, two]);
    scopes.set_var_local("kept".to_string(), 0, &mut memory, &array);
    let lost_item = memory.add(number(3.0));
    let lost = memory.add(Value::Array(vec![lost_item]));
    let frame = derive_scope(0, 0, &mut scopes);
    scopes.set_var_local("self".to_string(), frame, &mut memory, &closure(frame));
    let held = derive_scope(0, 0, &mut scopes);
    memory.new_protected();
    let pinned = memory.protect_id(closure(held));
    assert_eq!(memory.len(), 7);
    assert_eq!(scopes.len(), 3);
    memory.collect(&mut scopes, 0);
    assert_eq!(memory.len(), 4);
    assert!(memory.contains(one) && memory.contains(two) && memory.contains(pinned));
    assert!(!memory.contains(lost) && !memory.contains(lost_item));
    assert_eq!(scopes.len(), 2);
    assert!(scopes.contains(0) && scopes.contains(held) && !scopes.contains(frame));
    assert_eq!(memory.last_amount(), 4);
    assert_eq!(as_number(memory.get(two)), 2.0);
    memory.pop_protected();
    memory.collect(&mut scopes, 0);
    assert_eq!(memory.len(), 3);
    assert_eq!(scopes.len(), 1);
}

#[test]
fn collect_follows_parents_and_callers() {
    let mut memory = Memory::new();
    let mut scopes = ScopeList::new();
    let parent = derive_scope(0, 0, &mut scopes);
    let caller = derive_scope(0, 0, &mut scopes);
    let current = derive_scope(parent, caller, &mut scopes);
    let stray = derive_scope(current, current, &mut scopes);
    scopes.set_var_local("p".to_string(), parent, &mut memory, &number(1.0));
    scopes.set_var_local("c".to_string(), caller, &mut memory, &number(2.0));
    scopes.set_var_local("s".to_string(), stray, &mut memory, &number(3.0));
    memory.collect(&mut scopes, current);
    assert!(scopes.contains(0) && scopes.contains(parent) && scopes.contains(caller));
    assert!(scopes.contains(current) && !scopes.contains(stray));
    assert_eq!(memory.len(), 2);
    assert_eq!(scopes.get_var_id("c".to_string(), current), None);
    assert_eq!(scopes.get_var_id("p".to_string(), current), Some(1));
}

#[test]
fn collect_survives_dangling_handles() {
    let mut memory = Memory::new();
    let mut scopes = ScopeList::new();
    scopes.set_var_local("a".to_string(), 0, &mut memory, &Value::Array(vec![40, 41]));
    scopes.set_var_local("f".to_string(), 0, &mut memory, &closure(99));
    memory.collect(&mut scopes, 0);
    assert_eq!(memory.len(), 2);
    memory.collect(&mut scopes, 5);
    assert_eq!(memory.len(), 0);
    assert_eq!(scopes.len(), 0);
}

#[test]
fn mark_strikes_off_what_the_frame_reaches() {
    let mut memory = Memory::new();
    let mut scopes = ScopeList::new();
    let item = memory.add(number(1.0));
    scopes.set_var_local("a".to_string(), 0, &mut memory, &Value::Array(vec![item]));
    let child = derive_scope(0, 0, &mut scopes);
    scopes.set_var_local("b".to_string(), child, &mut memory, &number(2.0));
    let mut tracker = CollectTracker::new(&memory, &scopes);
    assert!(tracker.has_scope(0) && tracker.has_scope(child));
    assert!(tracker.has_value(item));
    memory.mark(&mut scopes, 0, &mut tracker);
    assert!(!tracker.has_scope(0));
    assert!(tracker.has_scope(child));
    assert!(!tracker.has_value(item) && !tracker.has_value(2));
    assert!(tracker.has_value(3));
    assert_eq!(tracker.remaining_scopes(), vec![child]);
    assert_eq!(tracker.remaining_values(), vec![3]);
    memory.mark(&mut scopes, child, &mut tracker);
    assert!(tracker.remaining_scopes().is_empty());
    assert!(tracker.remaining_values().is_empty());
    assert!(!tracker.take_scope(0));
    assert!(!tracker.take_value(3));
}

#[test]
fn threshold_compares_growth_since_the_last_sweep() {
    let mut memory = Memory::new();
    let mut scopes = ScopeList::new();
    assert!(!memory.over_threshold());
    for i in 0..50_001 {
        memory.add(number(i as f64));
    }
    assert!(memory.over_threshold());
    scopes.set_var_local("a".to_string(), 0, &mut memory, &number(0.0));
    memory.collect(&mut scopes, 0);
    assert_eq!(memory.len(), 1);
    assert!(!memory.over_threshold());
}

#[test]
fn resolving_values_refer_to_live_cells_and_frames() {
    let mut memory = Memory::new();
    let mut scopes = ScopeList::new();
    let one = memory.add(number(1.0));
    let child = derive_scope(0, 0, &mut scopes);
    assert!(test_resolves(&number(1.0), &memory, &scopes));
    assert!(test_resolves(&Value::Array(vec![]), &memory, &scopes));
    assert!(test_resolves(&Value::Array(vec![one, one]), &memory, &scopes));
    assert!(!test_resolves(&Value::Array(vec![one, 2]), &memory, &scopes));
    assert!(test_resolves(&closure(child), &memory, &scopes));
    assert!(!test_resolves(&closure(2), &memory, &scopes));
    memory.collect(&mut scopes, 0);
    assert!(!test_resolves(&Value::Array(vec![one]), &memory, &scopes));
    assert!(!test_resolves(&closure(child), &memory, &scopes));
    assert!(test_resolves(&closure(0), &memory, &scopes));
}

use filter_vm::bytecode::{
    apply_fn1, truthy, Address, ByteCode, Fn1, NamedFunction, Program, ScopeId, ScopedSlot,
};
use filter_vm::comparator::{comparator, Comparator};
use filter_vm::machine::{run_code, Environment, Machine, Scope, State, UnrecoverableError};
use filter_vm::value::Value;

fn num(n: i64) -> Value {
    Value::Number(n)
}

fn slot(scope: usize, index: usize) -> ScopedSlot {
    ScopedSlot(ScopeId(scope), index)
}

fn machine(code: Vec<ByteCode>) -> Machine {
    Machine::new(Program { code, entry_point: Address(0) })
}

#[test]
fn fork_yields_main_then_sibling_then_exhaustion() {
    let mut m = machine(vec![
        ByteCode::Fork { fork_pc: Address(3) },
        ByteCode::Push(num(10)),
        ByteCode::Output,
        ByteCode::Push(num(20)),
        ByteCode::Output,
    ]);
    assert_eq!(m.next(), Some(Ok(num(10))));
    assert_eq!(m.next(), Some(Ok(num(20))));
    assert_eq!(m.next(), None);
}

#[test]
fn nested_forks_surface_depth_first() {
    let mut m = machine(vec![
        ByteCode::Fork { fork_pc: Address(5) },
        ByteCode::Fork { fork_pc: Address(7) },
        ByteCode::Push(num(1)),
        ByteCode::Output,
        ByteCode::Nop,
        ByteCode::Push(num(2)),
        ByteCode::Output,
        ByteCode::Push(num(3)),
        ByteCode::Output,
    ]);
    // The spawning branch runs to exhaustion first; then the most recently
    // spawned untried sibling.
    assert_eq!(m.next(), Some(Ok(num(1))));
    assert_eq!(m.next(), Some(Ok(num(3))));
    assert_eq!(m.next(), Some(Ok(num(2))));
    assert_eq!(m.next(), None);
}

#[test]
fn scope_shadowing_restores_outer_values() {
    // An outer invocation stores 10 in slot (0,0); a nested invocation of
    // the same scope stores 99 in its own instance; after its return the
    // outer instance still holds 10.
    let mut m = machine(vec![
        ByteCode::Call { function: Address(2), return_address: Address(99) },
        ByteCode::Nop,
        ByteCode::NewScope { id: ScopeId(0), variable_cnt: 1, closure_cnt: 0 },
        ByteCode::Push(num(10)),
        ByteCode::Store(slot(0, 0)),
        ByteCode::Call { function: Address(9), return_address: Address(6) },
        ByteCode::Load(slot(0, 0)),
        ByteCode::Output,
        ByteCode::Nop,
        ByteCode::NewScope { id: ScopeId(0), variable_cnt: 1, closure_cnt: 0 },
        ByteCode::Push(num(99)),
        ByteCode::Store(slot(0, 0)),
        ByteCode::Ret,
    ]);
    assert_eq!(m.next(), Some(Ok(num(10))));
    assert_eq!(m.next(), None);
}

#[test]
fn load_of_never_stored_slot_fails() {
    let mut m = machine(vec![
        ByteCode::Call { function: Address(1), return_address: Address(50) },
        ByteCode::NewScope { id: ScopeId(0), variable_cnt: 1, closure_cnt: 0 },
        ByteCode::Load(slot(0, 0)),
        ByteCode::Output,
    ]);
    assert_eq!(m.next(), Some(Err(UnrecoverableError::UninitializedSlot)));
}

#[test]
fn off_the_end_branch_is_dropped_silently() {
    let mut m = machine(vec![
        ByteCode::Fork { fork_pc: Address(2) },
        ByteCode::Jump(Address(5)),
        ByteCode::Push(num(20)),
        ByteCode::Output,
    ]);
    // The main branch falls past the last instruction: no outcome for this
    // request, and the pending sibling is unaffected.
    assert_eq!(m.next(), None);
    assert_eq!(m.next(), Some(Ok(num(20))));
    assert_eq!(m.next(), None);
}

#[test]
fn empty_program_is_exhausted_immediately() {
    let mut m = machine(vec![]);
    assert_eq!(m.next(), None);
    assert_eq!(m.next(), None);
}

#[test]
fn pop_on_empty_stack_is_an_engine_defect() {
    let mut m = machine(vec![ByteCode::Pop]);
    assert_eq!(m.next(), Some(Err(UnrecoverableError::PopEmptyStack)));
}

#[test]
fn store_without_active_scope_fails() {
    let mut m = machine(vec![ByteCode::Push(num(1)), ByteCode::Store(slot(0, 0))]);
    assert_eq!(m.next(), Some(Err(UnrecoverableError::UninitializedScope)));
}

#[test]
fn store_outside_declared_layout_fails() {
    let mut m = machine(vec![
        ByteCode::Call { function: Address(1), return_address: Address(50) },
        ByteCode::NewScope { id: ScopeId(0), variable_cnt: 1, closure_cnt: 0 },
        ByteCode::Push(num(1)),
        ByteCode::Store(slot(0, 5)),
    ]);
    assert_eq!(m.next(), Some(Err(UnrecoverableError::UnknownSlot)));
}

#[test]
fn append_builds_an_array_in_a_slot() {
    let mut m = machine(vec![
        ByteCode::Call { function: Address(1), return_address: Address(50) },
        ByteCode::NewScope { id: ScopeId(0), variable_cnt: 1, closure_cnt: 0 },
        ByteCode::Push(Value::Array(vec![])),
        ByteCode::Store(slot(0, 0)),
        ByteCode::Push(num(4)),
        ByteCode::Append(slot(0, 0)),
        ByteCode::Push(num(5)),
        ByteCode::Append(slot(0, 0)),
        ByteCode::Load(slot(0, 0)),
        ByteCode::Output,
    ]);
    assert_eq!(m.next(), Some(Ok(Value::Array(vec![num(4), num(5)]))));
}

#[test]
fn append_to_non_array_fails() {
    let mut m = machine(vec![
        ByteCode::Call { function: Address(1), return_address: Address(50) },
        ByteCode::NewScope { id: ScopeId(0), variable_cnt: 1, closure_cnt: 0 },
        ByteCode::Push(num(3)),
        ByteCode::Store(slot(0, 0)),
        ByteCode::Push(num(4)),
        ByteCode::Append(slot(0, 0)),
    ]);
    assert_eq!(m.next(), Some(Err(UnrecoverableError::TypeMismatch)));
}

#[test]
fn ret_without_call_record_fails() {
    let mut m = machine(vec![ByteCode::Ret]);
    assert_eq!(m.next(), Some(Err(UnrecoverableError::PopEmptyScope)));
}

#[test]
fn new_scope_without_call_fails() {
    let mut m = machine(vec![ByteCode::NewScope {
        id: ScopeId(0),
        variable_cnt: 1,
        closure_cnt: 0,
    }]);
    assert_eq!(m.next(), Some(Err(UnrecoverableError::NewScopeWithoutCall)));
}

#[test]
fn two_calls_without_new_scope_fail() {
    let mut m = machine(vec![
        ByteCode::Call { function: Address(1), return_address: Address(9) },
        ByteCode::Call { function: Address(2), return_address: Address(9) },
    ]);
    assert_eq!(m.next(), Some(Err(UnrecoverableError::CallWithoutNewScope)));
}

#[test]
fn jump_unless_branches_on_null_and_false_only() {
    // Zero is truthy: the branch is not taken.
    let mut m = machine(vec![
        ByteCode::Push(num(0)),
        ByteCode::JumpUnless(Address(4)),
        ByteCode::Push(Value::True),
        ByteCode::Output,
        ByteCode::Push(Value::False),
        ByteCode::Output,
    ]);
    assert_eq!(m.next(), Some(Ok(Value::True)));
    // Null is not truthy: the branch is taken.
    let mut m2 = machine(vec![
        ByteCode::Push(Value::Null),
        ByteCode::JumpUnless(Address(4)),
        ByteCode::Push(Value::True),
        ByteCode::Output,
        ByteCode::Push(Value::False),
        ByteCode::Output,
    ]);
    assert_eq!(m2.next(), Some(Ok(Value::False)));
    assert!(truthy(&num(0)));
    assert!(truthy(&Value::Str(String::new())));
    assert!(!truthy(&Value::Null));
    assert!(!truthy(&Value::False));
}

#[test]
fn stack_shuffles_and_constants() {
    let mut m = machine(vec![
        ByteCode::Push(num(1)),
        ByteCode::Dup,
        ByteCode::Pop,
        ByteCode::Const(num(2)),
        ByteCode::Unreachable,
        ByteCode::PlaceHolder,
        ByteCode::Nop,
        ByteCode::Output,
    ]);
    assert_eq!(m.next(), Some(Ok(num(2))));
}

#[test]
fn relational_intrinsic_runs_inside_the_machine() {
    let mut m = machine(vec![
        ByteCode::Push(num(1)),
        ByteCode::Push(num(2)),
        ByteCode::Intrinsic2(comparator(&Comparator::LessThan)),
        ByteCode::Output,
    ]);
    assert_eq!(m.next(), Some(Ok(Value::True)));
    let mut m2 = machine(vec![
        ByteCode::Push(num(2)),
        ByteCode::Push(num(2)),
        ByteCode::Intrinsic2(comparator(&Comparator::NotEqual)),
        ByteCode::Output,
    ]);
    assert_eq!(m2.next(), Some(Ok(Value::False)));
}

#[test]
fn truthiness_intrinsic_runs_inside_the_machine() {
    let mut m = machine(vec![
        ByteCode::Push(Value::Null),
        ByteCode::Intrinsic1(NamedFunction { name: "Truthiness", func: Fn1::Truthiness }),
        ByteCode::Output,
    ]);
    assert_eq!(m.next(), Some(Ok(Value::False)));
    assert_eq!(apply_fn1(&Fn1::Truthiness, num(0)), Value::True);
}

#[test]
fn error_in_one_branch_leaves_siblings_pending() {
    let mut m = machine(vec![
        ByteCode::Fork { fork_pc: Address(2) },
        ByteCode::Pop,
        ByteCode::Push(num(8)),
        ByteCode::Output,
    ]);
    assert_eq!(m.next(), Some(Err(UnrecoverableError::PopEmptyStack)));
    assert_eq!(m.next(), Some(Ok(num(8))));
    assert_eq!(m.next(), None);
}

#[test]
fn forked_branch_keeps_its_own_copy_of_state() {
    // Both branches start from the same stack; each pops and outputs
    // independently.
    let mut m = machine(vec![
        ByteCode::Push(num(7)),
        ByteCode::Fork { fork_pc: Address(4) },
        ByteCode::Const(num(1)),
        ByteCode::Output,
        ByteCode::Output,
    ]);
    assert_eq!(m.next(), Some(Ok(num(1))));
    assert_eq!(m.next(), Some(Ok(num(7))));
    assert_eq!(m.next(), None);
}

#[test]
fn environment_and_state_primitives() {
    let program = Program { code: vec![ByteCode::Nop], entry_point: Address(0) };
    assert!(matches!(program.fetch_code(Address(0)), Some(ByteCode::Nop)));
    assert!(program.fetch_code(Address(1)).is_none());

    let mut st = State::new(Address(0));
    st.push(num(5));
    assert_eq!(st.dup(), Ok(()));
    assert_eq!(st.pop(), Ok(num(5)));
    assert_eq!(st.pop(), Ok(num(5)));
    assert_eq!(st.pop(), Err(UnrecoverableError::PopEmptyStack));
    assert_eq!(st.slot(&slot(0, 0)), Err(UnrecoverableError::UninitializedScope));

    let scope = Scope::new(2, 1);
    assert_eq!(scope.slots.len(), 2);
    assert!(scope.slots.iter().all(|s| s.is_none()));
    assert_eq!(scope.closure_slots.len(), 1);

    let mut env = Environment { program, forks: vec![] };
    assert_eq!(run_code(&mut env), Ok(None));
    let base = State::new(Address(0));
    env.push_fork(&base, Address(0));
    let taken = env.pop_fork().expect("one pending branch");
    assert_eq!(taken.pc, Address(0));
    assert!(env.pop_fork().is_none());
}

//! The execution engine: an environment owning the immutable program and
//! the last-in-first-out collection of pending branches, each branch an
//! independent, resumable execution context. Forking duplicates a branch;
//! the spawning branch keeps control, so results surface in strict
//! depth-first order.

use vstd::prelude::*;
use crate::bytecode::{
    spec_apply_fn1, spec_apply_fn2, spec_truthy, truthy, apply_fn1, apply_fn2, Address, ByteCode,
    Program, ScopeId, ScopedSlot, SpecInstr, SpecProgram,
};
use crate::value::{SpecValue, Value};

verus! {

/// An engine-defect condition: a bug in the compiled program or the engine
/// itself, never a property of user data. A branch that hits one produces
/// nothing further.
#[derive(Debug, Clone, Copy, PartialEq, Eq, Structural)]
pub enum UnrecoverableError {
    /// A value was popped from an empty stack.
    PopEmptyStack,
    /// A slot of a scope with no active instance was addressed.
    UninitializedScope,
    /// A slot index lies outside the scope's declared layout.
    UnknownSlot,
    /// A slot was loaded before it was ever stored.
    UninitializedSlot,
    /// A scope was left while no call record was pending.
    PopEmptyScope,
    /// A scope restoration addressed an unknown or inactive scope.
    PopUnknownScope,
    /// An append addressed a slot that does not hold an array.
    TypeMismatch,
    /// A call was made while a pending return address was already latched.
    CallWithoutNewScope,
    /// A scope was materialized with no latched return address to consume.
    NewScopeWithoutCall,
    /// One request ran for the engine's whole step budget without reaching
    /// a suspension point; the branch is abandoned as defective.
    StepLimitExceeded,
}

/// A call frame's fixed-layout local storage: variable slots, absent until
/// first written, and reserved closure slots.
#[derive(Debug)]
pub struct Scope {
    pub slots: Vec<Option<Value>>,
    pub closure_slots: Vec<Option<Address>>,
}

/// The model of a scope instance.
#[verifier::ext_equal]
pub struct SpecScope {
    pub slots: Seq<Option<SpecValue>>,
    pub closure_slots: Seq<Option<Address>>,
}

impl View for Scope {
    type V = SpecScope;

    open spec fn view(&self) -> SpecScope {
        SpecScope {
            slots: Seq::new(
                self.slots@.len(),
                |i: int|
                    match self.slots@[i] {
                        Some(v) => Some(v@),
                        None => None,
                    },
            ),
            closure_slots: self.closure_slots@,
        }
    }
}

impl Clone for Scope {
    /// Duplicating a scope duplicates its slots: the copy has the same
    /// model as the original.
    #[verifier::loop_isolation(false)]
    fn clone(&self) -> (res: Self)
        ensures
            res@ == self@,
    {
        let n = self.slots.len();
        let mut slots: Vec<Option<Value>> = Vec::new();
        let mut i: usize = 0;
        while i < n
            invariant
                i <= n,
                slots@.len() == i,
                forall|j: int|
                    0 <= j < i ==> (match #[trigger] slots@[j] {
                        Some(v) => Some(v@),
                        None => None,
                    }) == (match self.slots@[j] {
                        Some(v) => Some(v@),
                        None => None,
                    }),
            decreases n - i,
        {
            let c = match &self.slots[i] {
                Some(v) => Some(v.clone()),
                None => None,
            };
            slots.push(c);
            i = i + 1;
        }
        let m = self.closure_slots.len();
        let mut closure_slots: Vec<Option<Address>> = Vec::new();
        let mut k: usize = 0;
        while k < m
            invariant
                k <= m,
                closure_slots@.len() == k,
                forall|j: int| 0 <= j < k ==> closure_slots@[j] == self.closure_slots@[j],
            decreases m - k,
        {
            closure_slots.push(self.closure_slots[k]);
            k = k + 1;
        }
        let res = Scope { slots, closure_slots };
        proof {
            assert(res@.slots =~= self@.slots);
            assert(res@.closure_slots =~= self@.closure_slots);
            assert(res@ =~= self@);
        }
        res
    }
}

impl Scope {
    /// A fresh scope instance: every slot absent.
    pub fn new(variable_cnt: usize, closure_cnt: usize) -> (s: Scope)
        ensures
            s@ == spec_new_scope(variable_cnt as nat, closure_cnt as nat),
    {
        let mut slots: Vec<Option<Value>> = Vec::new();
        let mut i: usize = 0;
        while i < variable_cnt
            invariant
                i <= variable_cnt,
                slots@.len() == i,
                forall|j: int| 0 <= j < i ==> slots@[j] is None,
            decreases variable_cnt - i,
        {
            slots.push(None);
            i = i + 1;
        }
        let mut closure_slots: Vec<Option<Address>> = Vec::new();
        let mut k: usize = 0;
        while k < closure_cnt
            invariant
                k <= closure_cnt,
                closure_slots@.len() == k,
                forall|j: int| 0 <= j < k ==> closure_slots@[j] is None,
            decreases closure_cnt - k,
        {
            closure_slots.push(None);
            k = k + 1;
        }
        let s = Scope { slots, closure_slots };
        proof {
            assert(s@.slots =~= spec_new_scope(variable_cnt as nat, closure_cnt as nat).slots);
            assert(s@.closure_slots =~= spec_new_scope(
                variable_cnt as nat,
                closure_cnt as nat,
            ).closure_slots);
            assert(s@ =~= spec_new_scope(variable_cnt as nat, closure_cnt as nat));
        }
        s
    }
}

/// The model of a fresh scope instance.
pub open spec fn spec_new_scope(variable_cnt: nat, closure_cnt: nat) -> SpecScope {
    SpecScope {
        slots: Seq::new(variable_cnt, |i: int| None),
        closure_slots: Seq::new(closure_cnt, |i: int| None),
    }
}

/// One independent, resumable execution context: a program counter, a
/// value stack, the table of scope instances (the active instance of each
/// scope identity, with the stack of shadowed instances awaiting
/// restoration), and the stack of pending call records.
#[derive(Debug)]
pub struct State {
    pub pc: Address,
    pub stack: Vec<Value>,
    pub scopes: Vec<(Option<Scope>, Vec<Scope>)>,
    pub scope_stack: Vec<(Address, ScopeId)>,
}

/// The model of a branch state.
#[verifier::ext_equal]
pub struct SpecState {
    pub pc: Address,
    pub stack: Seq<SpecValue>,
    pub scopes: Seq<(Option<SpecScope>, Seq<SpecScope>)>,
    pub scope_stack: Seq<(Address, ScopeId)>,
}

impl View for State {
    type V = SpecState;

    open spec fn view(&self) -> SpecState {
        SpecState {
            pc: self.pc,
            stack: Seq::new(self.stack@.len(), |i: int| self.stack@[i]@),
            scopes: Seq::new(
                self.scopes@.len(),
                |i: int|
                    (
                        match self.scopes@[i].0 {
                            Some(s) => Some(s@),
                            None => None,
                        },
                        Seq::new(self.scopes@[i].1@.len(), |j: int| self.scopes@[i].1@[j]@),
                    ),
            ),
            scope_stack: self.scope_stack@,
        }
    }
}

impl Clone for State {
    /// Duplicating a branch duplicates its whole context: the copy has the
    /// same model as the original. Forking is built on this.
    #[verifier::loop_isolation(false)]
    fn clone(&self) -> (res: Self)
        ensures
            res@ == self@,
    {
        let n = self.stack.len();
        let mut stack: Vec<Value> = Vec::new();
        let mut i: usize = 0;
        while i < n
            invariant
                i <= n,
                stack@.len() == i,
                forall|j: int| 0 <= j < i ==> stack@[j]@ == #[trigger] self.stack@[j]@,
            decreases n - i,
        {
            let c = self.stack[i].clone();
            stack.push(c);
            i = i + 1;
        }
        let m = self.scopes.len();
        let mut scopes: Vec<(Option<Scope>, Vec<Scope>)> = Vec::new();
        let mut k: usize = 0;
        while k < m
            invariant
                k <= m,
                scopes@.len() == k,
                forall|j: int|
                    0 <= j < k ==> (match (#[trigger] scopes@[j]).0 {
                        Some(s) => Some(s@),
                        None => None,
                    }) == (match self.scopes@[j].0 {
                        Some(s) => Some(s@),
                        None => None,
                    }),
                forall|j: int| 0 <= j < k ==> scopes@[j].1@.len() == self.scopes@[j].1@.len(),
                forall|j: int, l: int|
                    0 <= j < k && 0 <= l < self.scopes@[j].1@.len() ==> #[trigger] scopes@[j].1@[l]@
                        == self.scopes@[j].1@[l]@,
            decreases m - k,
        {
            let active = match &self.scopes[k].0 {
                Some(s) => Some(s.clone()),
                None => None,
            };
            let sn = self.scopes[k].1.len();
            let mut shadows: Vec<Scope> = Vec::new();
            let mut l: usize = 0;
            while l < sn
                invariant
                    l <= sn,
                    shadows@.len() == l,
                    forall|j: int| 0 <= j < l ==> shadows@[j]@ == #[trigger] self.scopes@[
                        k as int
                    ].1@[j]@,
                decreases sn - l,
            {
                let c = self.scopes[k].1[l].clone();
                shadows.push(c);
                l = l + 1;
            }
            scopes.push((active, shadows));
            k = k + 1;
        }
        let mut scope_stack: Vec<(Address, ScopeId)> = Vec::new();
        let sl = self.scope_stack.len();
        let mut p: usize = 0;
        while p < sl
            invariant
                p <= sl,
                scope_stack@.len() == p,
                forall|j: int| 0 <= j < p ==> scope_stack@[j] == self.scope_stack@[j],
            decreases sl - p,
        {
            scope_stack.push(self.scope_stack[p]);
            p = p + 1;
        }
        let res = State { pc: self.pc, stack, scopes, scope_stack };
        proof {
            assert(res@.stack =~= self@.stack);
            assert forall|j: int| 0 <= j < m implies res@.scopes[j] == #[trigger] self@.scopes[j] by {
                assert(res@.scopes[j].1 =~= self@.scopes[j].1);
                assert(res@.scopes[j].0 == self@.scopes[j].0);
            }
            assert(res@.scopes =~= self@.scopes);
            assert(res@.scope_stack =~= self@.scope_stack);
            assert(res@ =~= self@);
        }
        res
    }
}

/// The model of a fresh branch state, positioned at `pc`.
pub open spec fn spec_new_state(pc: Address) -> SpecState {
    SpecState {
        pc,
        stack: Seq::empty(),
        scopes: Seq::empty(),
        scope_stack: Seq::empty(),
    }
}

/// Which engine defect, if any, addressing `s` in `st` raises: the scope
/// must have an active instance and the index must lie inside its layout.
pub open spec fn slot_err(st: SpecState, s: ScopedSlot) -> Option<UnrecoverableError> {
    if s.0.0 >= st.scopes.len() || st.scopes[s.0.0 as int].0 is None {
        Some(UnrecoverableError::UninitializedScope)
    } else if s.1 >= st.scopes[s.0.0 as int].0->0.slots.len() {
        Some(UnrecoverableError::UnknownSlot)
    } else {
        None
    }
}

/// The current content of slot `s`: absent until first written.
pub open spec fn slot_read(st: SpecState, s: ScopedSlot) -> Option<SpecValue> {
    st.scopes[s.0.0 as int].0->0.slots[s.1 as int]
}

/// The state after writing `v` into slot `s`.
pub open spec fn spec_set_slot(st: SpecState, s: ScopedSlot, v: Option<SpecValue>) -> SpecState {
    let pair = st.scopes[s.0.0 as int];
    let scope = pair.0->0;
    let ns = SpecScope { slots: scope.slots.update(s.1 as int, v), ..scope };
    SpecState { scopes: st.scopes.update(s.0.0 as int, (Some(ns), pair.1)), ..st }
}

/// The state after materializing a fresh instance of scope `id`: the table
/// grows as needed, a currently active instance is shadowed, and the
/// consumed return address is recorded for later restoration.
pub open spec fn spec_push_scope(
    st: SpecState,
    id: ScopeId,
    variable_cnt: nat,
    closure_cnt: nat,
    ret: Address,
) -> SpecState {
    let grown = if st.scopes.len() <= id.0 {
        st.scopes + Seq::new(
            (id.0 + 1 - st.scopes.len()) as nat,
            |i: int| (None::<SpecScope>, Seq::<SpecScope>::empty()),
        )
    } else {
        st.scopes
    };
    let pair = grown[id.0 as int];
    let shadows = match pair.0 {
        Some(prev) => pair.1.push(prev),
        None => pair.1,
    };
    SpecState {
        scopes: grown.update(id.0 as int, (Some(spec_new_scope(variable_cnt, closure_cnt)), shadows)),
        scope_stack: st.scope_stack.push((ret, id)),
        ..st
    }
}

/// The state after restoring the scope named by the most recent call
/// record: the shadowed instance, if any, becomes active again.
pub open spec fn spec_pop_scope(st: SpecState) -> SpecState {
    let id = st.scope_stack.last().1;
    let pair = st.scopes[id.0 as int];
    let restored = if pair.1.len() > 0 {
        Some(pair.1.last())
    } else {
        None
    };
    let shadows = if pair.1.len() > 0 {
        pair.1.drop_last()
    } else {
        pair.1
    };
    SpecState {
        scopes: st.scopes.update(id.0 as int, (restored, shadows)),
        scope_stack: st.scope_stack.drop_last(),
        ..st
    }
}

impl State {
    /// A fresh branch positioned at `pc`, with empty stack and no scopes.
    pub fn new(pc: Address) -> (st: State)
        ensures
            st@ == spec_new_state(pc),
    {
        let st = State {
            pc,
            stack: Vec::new(),
            scopes: Vec::new(),
            scope_stack: Vec::new(),
        };
        proof {
            assert(st@.stack =~= spec_new_state(pc).stack);
            assert(st@.scopes =~= spec_new_state(pc).scopes);
            assert(st@ =~= spec_new_state(pc));
        }
        st
    }

    /// Push a value onto the branch's stack.
    pub fn push(&mut self, item: Value)
        ensures
            final(self)@ == (SpecState { stack: old(self)@.stack.push(item@), ..old(self)@ }),
    {
        self.stack.push(item);
        proof {
            assert(final(self)@.stack =~= old(self)@.stack.push(item@));
            assert(final(self)@.scopes =~= old(self)@.scopes);
            assert(final(self)@ =~= (SpecState { stack: old(self)@.stack.push(item@), ..old(self)@ }));
        }
    }

    /// Pop the top of the stack; popping an empty stack is an engine
    /// defect, never a silent default.
    pub fn pop(&mut self) -> (r: Result<Value, UnrecoverableError>)
        ensures
            match r {
                Ok(v) => old(self)@.stack.len() > 0 && v@ == old(self)@.stack.last() && final(self)@
                    == (SpecState { stack: old(self)@.stack.drop_last(), ..old(self)@ }),
                Err(e) => e == UnrecoverableError::PopEmptyStack && old(self)@.stack.len() == 0
                    && final(self)@ == old(self)@,
            },
    {
        match self.stack.pop() {
            Some(v) => {
                proof {
                    assert(final(self)@.stack =~= old(self)@.stack.drop_last());
                    assert(final(self)@.scopes =~= old(self)@.scopes);
                    assert(final(self)@ =~= (SpecState {
                        stack: old(self)@.stack.drop_last(),
                        ..old(self)@
                    }));
                }
                Ok(v)
            },
            None => {
                proof {
                    assert(final(self)@ =~= old(self)@);
                }
                Err(UnrecoverableError::PopEmptyStack)
            },
        }
    }

    /// Duplicate the top of the stack.
    pub fn dup(&mut self) -> (r: Result<(), UnrecoverableError>)
        ensures
            match r {
                Ok(()) => old(self)@.stack.len() > 0 && final(self)@ == (SpecState {
                    stack: old(self)@.stack.push(old(self)@.stack.last()),
                    ..old(self)@
                }),
                Err(e) => e == UnrecoverableError::PopEmptyStack && old(self)@.stack.len() == 0
                    && final(self)@ == old(self)@,
            },
    {
        let value = match self.pop() {
            Ok(v) => v,
            Err(e) => {
                return Err(e);
            },
        };
        let copy = value.clone();
        self.push(copy);
        self.push(value);
        proof {
            assert(final(self)@.stack =~= old(self)@.stack.push(old(self)@.stack.last()));
            assert(final(self)@ =~= (SpecState {
                stack: old(self)@.stack.push(old(self)@.stack.last()),
                ..old(self)@
            }));
        }
        Ok(())
    }

    /// Read the content of a compile-time-resolved slot.
    pub fn slot(&self, scoped_slot: &ScopedSlot) -> (r: Result<
        Option<Value>,
        UnrecoverableError,
    >)
        ensures
            match r {
                Ok(o) => slot_err(self@, *scoped_slot) is None && (match o {
                    Some(v) => slot_read(self@, *scoped_slot) == Some(v@),
                    None => slot_read(self@, *scoped_slot) is None,
                }),
                Err(e) => slot_err(self@, *scoped_slot) == Some(e),
            },
    {
        let idx = scoped_slot.0.0;
        if idx >= self.scopes.len() {
            return Err(UnrecoverableError::UninitializedScope);
        }
        match &self.scopes[idx].0 {
            None => Err(UnrecoverableError::UninitializedScope),
            Some(scope) => {
                if scoped_slot.1 >= scope.slots.len() {
                    Err(UnrecoverableError::UnknownSlot)
                } else {
                    match &scope.slots[scoped_slot.1] {
                        Some(v) => Ok(Some(v.clone())),
                        None => Ok(None),
                    }
                }
            },
        }
    }

    /// Write the content of a compile-time-resolved slot.
    pub fn set_slot(&mut self, scoped_slot: &ScopedSlot, v: Option<Value>) -> (r: Result<
        (),
        UnrecoverableError,
    >)
        ensures
            match r {
                Ok(()) => slot_err(old(self)@, *scoped_slot) is None && final(self)@
                    == spec_set_slot(
                    old(self)@,
                    *scoped_slot,
                    match v {
                        Some(x) => Some(x@),
                        None => None,
                    },
                ),
                Err(e) => slot_err(old(self)@, *scoped_slot) == Some(e) && final(self)@ == old(
                    self,
                )@,
            },
    {
        let idx = scoped_slot.0.0;
        if idx >= self.scopes.len() {
            return Err(UnrecoverableError::UninitializedScope);
        }
        match &mut self.scopes[idx].0 {
            None => Err(UnrecoverableError::UninitializedScope),
            Some(scope) => {
                if scoped_slot.1 >= scope.slots.len() {
                    Err(UnrecoverableError::UnknownSlot)
                } else {
                    let ghost gv: Option<SpecValue> = match &v {
                        Some(x) => Some(x@),
                        None => None,
                    };
                    scope.slots[scoped_slot.1] = v;
                    proof {
                        let want = spec_set_slot(old(self)@, *scoped_slot, gv);
                        assert(final(self)@.scopes[idx as int].0->0.slots =~= want.scopes[
                            idx as int
                        ].0->0.slots);
                        assert(final(self)@.scopes[idx as int].1 =~= want.scopes[idx as int].1);
                        assert(final(self)@.scopes[idx as int].0->0 =~= want.scopes[idx as int].0->0);
                        assert(final(self)@.scopes =~= want.scopes);
                        assert(final(self)@ =~= want);
                    }
                    Ok(())
                }
            },
        }
    }
}

impl State {
    /// Materialize a fresh instance of `scope_id`, shadowing any currently
    /// active instance, and record the consumed return address.
    #[verifier::loop_isolation(false)]
    pub fn push_scope(
        &mut self,
        scope_id: ScopeId,
        variable_cnt: usize,
        closure_cnt: usize,
        pc: Address,
    )
        ensures
            final(self)@ == spec_push_scope(
                old(self)@,
                scope_id,
                variable_cnt as nat,
                closure_cnt as nat,
                pc,
            ),
    {
        let ghost want = spec_push_scope(
            old(self)@,
            scope_id,
            variable_cnt as nat,
            closure_cnt as nat,
            pc,
        );
        while self.scopes.len() <= scope_id.0
            invariant
                self.pc == old(self).pc,
                self.stack == old(self).stack,
                self.scope_stack == old(self).scope_stack,
                self.scopes@.len() >= old(self).scopes@.len(),
                old(self).scopes@.len() > scope_id.0 ==> self.scopes@.len() == old(
                    self,
                ).scopes@.len(),
                old(self).scopes@.len() <= scope_id.0 ==> self.scopes@.len() <= scope_id.0 + 1,
                forall|j: int|
                    0 <= j < old(self).scopes@.len() ==> #[trigger] self.scopes@[j] == old(
                        self,
                    ).scopes@[j],
                forall|j: int|
                    old(self).scopes@.len() <= j < self.scopes@.len() ==> (#[trigger] self.scopes@[
                        j
                    ]).0 is None && self.scopes@[j].1@.len() == 0,
            decreases scope_id.0 + 1 - self.scopes.len(),
        {
            self.scopes.push((None, Vec::new()));
        }
        let ghost idx = scope_id.0 as int;
        let ghost grown = self@.scopes;
        proof {
            assert(grown.len() == want.scopes.len());
            assert forall|j: int| 0 <= j < grown.len() && j != idx implies grown[j]
                == want.scopes[j] by {
                if j < old(self)@.scopes.len() {
                    assert(self.scopes@[j] == old(self).scopes@[j]);
                    assert(grown[j] == old(self)@.scopes[j]);
                } else {
                    assert(grown[j].1 =~= Seq::<SpecScope>::empty());
                }
            }
        }
        let prev = self.scopes[scope_id.0].0.take();
        proof {
            assert(self@.scopes =~= grown.update(idx, (None::<SpecScope>, grown[idx].1)));
        }
        let ghost g1 = self@.scopes;
        match prev {
            Some(p) => {
                self.scopes[scope_id.0].1.push(p);
                proof {
                    assert(self@.scopes[idx].1 =~= g1[idx].1.push(p@));
                    assert(self@.scopes =~= g1.update(idx, (None::<SpecScope>, g1[idx].1.push(p@))));
                }
            },
            None => {},
        }
        let ghost g2 = self@.scopes;
        let fresh = Scope::new(variable_cnt, closure_cnt);
        self.scopes[scope_id.0].0 = Some(fresh);
        proof {
            assert(self@.scopes =~= g2.update(idx, (Some(spec_new_scope(variable_cnt as nat, closure_cnt as nat)), g2[idx].1)));
        }
        self.scope_stack.push((pc, scope_id));
        proof {
            assert(self@.scopes[idx] == want.scopes[idx]);
            assert(self@.scopes =~= want.scopes);
            assert(self@.scope_stack =~= want.scope_stack);
            assert(self@ =~= want);
        }
    }

    /// Restore the scope named by the most recent call record and hand
    /// back the recorded return address.
    pub fn pop_scope(&mut self) -> (r: Result<Address, UnrecoverableError>)
        ensures
            match r {
                Ok(addr) => old(self)@.scope_stack.len() > 0 && {
                    let record = old(self)@.scope_stack.last();
                    let id = record.1;
                    &&& addr == record.0
                    &&& id.0 < old(self)@.scopes.len()
                    &&& old(self)@.scopes[id.0 as int].0 is Some
                    &&& final(self)@ == spec_pop_scope(old(self)@)
                },
                Err(e) => match e {
                    UnrecoverableError::PopEmptyScope => old(self)@.scope_stack.len() == 0
                        && final(self)@ == old(self)@,
                    UnrecoverableError::PopUnknownScope => old(self)@.scope_stack.len() > 0 && {
                        let id = old(self)@.scope_stack.last().1;
                        &&& (id.0 >= old(self)@.scopes.len() || old(self)@.scopes[id.0 as int].0
                            is None)
                        &&& final(self)@ == (SpecState {
                            scope_stack: old(self)@.scope_stack.drop_last(),
                            ..old(self)@
                        })
                    },
                    _ => false,
                },
            },
    {
        let record = match self.scope_stack.pop() {
            Some(rec) => rec,
            None => {
                proof {
                    assert(self@ =~= old(self)@);
                }
                return Err(UnrecoverableError::PopEmptyScope);
            },
        };
        let (pc, scope_id) = record;
        proof {
            assert(self@.scope_stack =~= old(self)@.scope_stack.drop_last());
        }
        if scope_id.0 >= self.scopes.len() {
            proof {
                assert(self@ =~= (SpecState {
                    scope_stack: old(self)@.scope_stack.drop_last(),
                    ..old(self)@
                }));
            }
            return Err(UnrecoverableError::PopUnknownScope);
        }
        let is_active = self.scopes[scope_id.0].0.is_some();
        if !is_active {
            proof {
                assert(self@ =~= (SpecState {
                    scope_stack: old(self)@.scope_stack.drop_last(),
                    ..old(self)@
                }));
            }
            return Err(UnrecoverableError::PopUnknownScope);
        }
        let ghost idx = scope_id.0 as int;
        let ghost s0 = self@.scopes;
        let ghost grestored: Option<SpecScope> = if s0[idx].1.len() > 0 {
            Some(s0[idx].1.last())
        } else {
            None
        };
        let ghost gshadows: Seq<SpecScope> = if s0[idx].1.len() > 0 {
            s0[idx].1.drop_last()
        } else {
            s0[idx].1
        };
        let restored = self.scopes[scope_id.0].1.pop();
        proof {
            assert(self@.scopes[idx].1 =~= gshadows);
            assert(self@.scopes =~= s0.update(idx, (s0[idx].0, gshadows)));
            match &restored {
                Some(r) => assert(grestored == Some(r@)),
                None => assert(grestored is None),
            }
        }
        let ghost s1 = self@.scopes;
        self.scopes[scope_id.0].0 = restored;
        proof {
            let want = spec_pop_scope(old(self)@);
            assert(self@.scopes =~= s1.update(idx, (grestored, s1[idx].1)));
            assert(self@.scopes[idx].1 =~= want.scopes[idx].1);
            assert(self@.scopes[idx] == want.scopes[idx]);
            assert(self@.scopes =~= want.scopes);
            assert(self@.scope_stack =~= want.scope_stack);
            assert(self@ =~= want);
        }
        Ok(pc)
    }
}

/// The model of the environment: the program's model and the models of the
/// pending branches, most recently queued last.
#[verifier::ext_equal]
pub struct SpecEnv {
    pub program: SpecProgram,
    pub forks: Seq<SpecState>,
}

/// The environment of one machine run: the immutable program and the
/// last-in-first-out collection of branches not yet run to completion.
#[derive(Debug)]
pub struct Environment {
    pub program: Program,
    pub forks: Vec<State>,
}

impl View for Environment {
    type V = SpecEnv;

    open spec fn view(&self) -> SpecEnv {
        SpecEnv {
            program: self.program@,
            forks: Seq::new(self.forks@.len(), |i: int| self.forks@[i]@),
        }
    }
}

impl Environment {
    /// Queue a sibling of `state` that will resume at `new_pc`: the whole
    /// branch context is duplicated; control stays with the caller.
    pub fn push_fork(&mut self, state: &State, new_pc: Address)
        ensures
            final(self)@.program == old(self)@.program,
            final(self)@.forks == old(self)@.forks.push(SpecState { pc: new_pc, ..state@ }),
    {
        let mut new_state = state.clone();
        new_state.pc = new_pc;
        self.forks.push(new_state);
        proof {
            assert(final(self)@.forks =~= old(self)@.forks.push(
                SpecState { pc: new_pc, ..state@ },
            ));
        }
    }

    /// Take the most recently queued pending branch, if any: the
    /// depth-first order of the search.
    pub fn pop_fork(&mut self) -> (r: Option<State>)
        ensures
            final(self)@.program == old(self)@.program,
            match r {
                Some(st) => old(self)@.forks.len() > 0 && st@ == old(self)@.forks.last()
                    && final(self)@.forks == old(self)@.forks.drop_last(),
                None => old(self)@.forks.len() == 0 && final(self)@ == old(self)@,
            },
    {
        let r = self.forks.pop();
        proof {
            if old(self)@.forks.len() > 0 {
                assert(final(self)@.forks =~= old(self)@.forks.drop_last());
            } else {
                assert(final(self)@ =~= old(self)@);
            }
        }
        r
    }
}

/// The machine of one run: it owns the environment and hands out the
/// pull-based sequence of outcomes through `next`.
#[derive(Debug)]
pub struct Machine {
    pub env: Environment,
}

impl View for Machine {
    type V = SpecEnv;

    open spec fn view(&self) -> SpecEnv {
        self.env@
    }
}

impl Machine {
    /// Produce the next outcome: pop the most recently queued branch and
    /// run it to completion. `Some(Ok(..))` is a produced value,
    /// `Some(Err(..))` a terminal error outcome for this request; `None`
    /// means this request produced nothing, either because the popped
    /// branch fell off the end of the listing or because no branch was
    /// pending (exhaustion).
    pub fn next(&mut self) -> (r: Option<Result<Value, UnrecoverableError>>)
        ensures
            final(self)@.program == old(self)@.program,
            old(self)@.forks.len() == 0 ==> final(self)@ == old(self)@ && r is None,
            old(self)@.forks.len() > 0 ==> ((exists|fuel: nat|
                {
                    let rr = #[trigger] run_branch(
                        old(self)@.program,
                        old(self)@.forks.last(),
                        None,
                        fuel,
                    );
                    &&& final(self)@.forks == old(self)@.forks.drop_last() + rr.spawned
                    &&& match r {
                        Some(Ok(v)) => rr.status == RunStatus::Produced(v@),
                        None => rr.status == RunStatus::Silent,
                        Some(Err(e)) => rr.status == RunStatus::Failed(e),
                    }
                }) || (r == Some(Err::<Value, UnrecoverableError>(
                UnrecoverableError::StepLimitExceeded,
            )) && run_branch(
                old(self)@.program,
                old(self)@.forks.last(),
                None,
                usize::MAX as nat,
            ).status is Running && final(self)@.forks == old(self)@.forks.drop_last()
                + run_branch(
                old(self)@.program,
                old(self)@.forks.last(),
                None,
                usize::MAX as nat,
            ).spawned)),
    {
        match run_code(&mut self.env) {
            Ok(Some(v)) => Some(Ok(v)),
            Ok(None) => None,
            Err(e) => Some(Err(e)),
        }
    }

    /// A machine ready to run `program`: one initial branch, positioned at
    /// the entry point.
    pub fn new(program: Program) -> (m: Machine)
        ensures
            m@.program == program@,
            m@.forks == seq![spec_new_state(program@.entry)],
    {
        let entry = program.entry_point;
        let state = State::new(entry);
        let m = Machine { env: Environment { program, forks: vec![state] } };
        proof {
            assert(m@.forks =~= seq![spec_new_state(m@.program.entry)]);
        }
        m
    }
}

// ---------------------------------------------------------------------------
// The small-step semantics of a branch
// ---------------------------------------------------------------------------

/// How one request to advance a branch can end up.
#[verifier::ext_equal]
pub enum RunStatus {
    /// The branch reached `Output`: it yields this value and is discarded.
    Produced(SpecValue),
    /// The branch fell past the last instruction: benign non-production.
    Silent,
    /// The branch hit an engine defect and produces nothing further.
    Failed(UnrecoverableError),
    /// The branch is still running, at this state with this latched
    /// return address.
    Running(SpecState, Option<Address>),
}

/// The effect of one instruction: a status and at most one queued sibling.
#[verifier::ext_equal]
pub struct SpecStep {
    pub status: RunStatus,
    pub spawned: Option<SpecState>,
}

/// The effect of running a branch: a status and the siblings it queued,
/// in order of creation.
#[verifier::ext_equal]
pub struct RunResult {
    pub status: RunStatus,
    pub spawned: Seq<SpecState>,
}

/// The state one instruction later.
pub open spec fn spec_advance(st: SpecState) -> SpecState {
    SpecState { pc: Address((st.pc.0 + 1) as usize), ..st }
}

pub open spec fn step_cont(st: SpecState, cp: Option<Address>) -> SpecStep {
    SpecStep { status: RunStatus::Running(st, cp), spawned: None }
}

pub open spec fn step_fail(e: UnrecoverableError) -> SpecStep {
    SpecStep { status: RunStatus::Failed(e), spawned: None }
}

/// The meaning of the instruction at `st.pc`: what executing it does to
/// the branch state, the latched return address, and the fork queue.
pub open spec fn step_config(prog: SpecProgram, st: SpecState, call_pc: Option<Address>) -> SpecStep {
    match prog.code[st.pc.0 as int] {
        SpecInstr::Unreachable => step_cont(spec_advance(st), call_pc),
        SpecInstr::PlaceHolder => step_cont(spec_advance(st), call_pc),
        SpecInstr::Nop => step_cont(spec_advance(st), call_pc),
        SpecInstr::Push(v) => step_cont(
            spec_advance(SpecState { stack: st.stack.push(v), ..st }),
            call_pc,
        ),
        SpecInstr::Pop => if st.stack.len() == 0 {
            step_fail(UnrecoverableError::PopEmptyStack)
        } else {
            step_cont(spec_advance(SpecState { stack: st.stack.drop_last(), ..st }), call_pc)
        },
        SpecInstr::Dup => if st.stack.len() == 0 {
            step_fail(UnrecoverableError::PopEmptyStack)
        } else {
            step_cont(
                spec_advance(SpecState { stack: st.stack.push(st.stack.last()), ..st }),
                call_pc,
            )
        },
        SpecInstr::Const(v) => if st.stack.len() == 0 {
            step_fail(UnrecoverableError::PopEmptyStack)
        } else {
            step_cont(
                spec_advance(SpecState { stack: st.stack.drop_last().push(v), ..st }),
                call_pc,
            )
        },
        SpecInstr::Load(s) => match slot_err(st, s) {
            Some(e) => step_fail(e),
            None => match slot_read(st, s) {
                None => step_fail(UnrecoverableError::UninitializedSlot),
                Some(v) => step_cont(
                    spec_advance(SpecState { stack: st.stack.push(v), ..st }),
                    call_pc,
                ),
            },
        },
        SpecInstr::Store(s) => if st.stack.len() == 0 {
            step_fail(UnrecoverableError::PopEmptyStack)
        } else {
            match slot_err(st, s) {
                Some(e) => step_fail(e),
                None => step_cont(
                    spec_advance(
                        spec_set_slot(
                            SpecState { stack: st.stack.drop_last(), ..st },
                            s,
                            Some(st.stack.last()),
                        ),
                    ),
                    call_pc,
                ),
            }
        },
        SpecInstr::Append(s) => if st.stack.len() == 0 {
            step_fail(UnrecoverableError::PopEmptyStack)
        } else {
            match slot_err(st, s) {
                Some(e) => step_fail(e),
                None => match slot_read(st, s) {
                    None => step_fail(UnrecoverableError::UninitializedSlot),
                    Some(SpecValue::Array(items)) => step_cont(
                        spec_advance(
                            spec_set_slot(
                                SpecState { stack: st.stack.drop_last(), ..st },
                                s,
                                Some(SpecValue::Array(items.push(st.stack.last()))),
                            ),
                        ),
                        call_pc,
                    ),
                    Some(_) => step_fail(UnrecoverableError::TypeMismatch),
                },
            }
        },
        SpecInstr::Fork { fork_pc } => SpecStep {
            status: RunStatus::Running(spec_advance(st), call_pc),
            spawned: Some(SpecState { pc: fork_pc, ..st }),
        },
        SpecInstr::Jump(a) => step_cont(SpecState { pc: a, ..st }, call_pc),
        SpecInstr::JumpUnless(a) => if st.stack.len() == 0 {
            step_fail(UnrecoverableError::PopEmptyStack)
        } else if !spec_truthy(st.stack.last()) {
            step_cont(SpecState { pc: a, stack: st.stack.drop_last(), ..st }, call_pc)
        } else {
            step_cont(spec_advance(SpecState { stack: st.stack.drop_last(), ..st }), call_pc)
        },
        SpecInstr::Call { function, return_address } => match call_pc {
            Some(_) => step_fail(UnrecoverableError::CallWithoutNewScope),
            None => step_cont(SpecState { pc: function, ..st }, Some(return_address)),
        },
        SpecInstr::NewScope { id, variable_cnt, closure_cnt } => match call_pc {
            None => step_fail(UnrecoverableError::NewScopeWithoutCall),
            Some(ret) => step_cont(
                spec_advance(
                    spec_push_scope(st, id, variable_cnt as nat, closure_cnt as nat, ret),
                ),
                None,
            ),
        },
        SpecInstr::Ret => if st.scope_stack.len() == 0 {
            step_fail(UnrecoverableError::PopEmptyScope)
        } else {
            let record = st.scope_stack.last();
            if record.1.0 >= st.scopes.len() || st.scopes[record.1.0 as int].0 is None {
                step_fail(UnrecoverableError::PopUnknownScope)
            } else {
                step_cont(SpecState { pc: record.0, ..spec_pop_scope(st) }, call_pc)
            }
        },
        SpecInstr::Output => if st.stack.len() == 0 {
            step_fail(UnrecoverableError::PopEmptyStack)
        } else {
            SpecStep { status: RunStatus::Produced(st.stack.last()), spawned: None }
        },
        SpecInstr::Intrinsic1(f) => if st.stack.len() == 0 {
            step_fail(UnrecoverableError::PopEmptyStack)
        } else {
            step_cont(
                spec_advance(
                    SpecState {
                        stack: st.stack.drop_last().push(spec_apply_fn1(f, st.stack.last())),
                        ..st
                    },
                ),
                call_pc,
            )
        },
        SpecInstr::Intrinsic2(f) => if st.stack.len() < 2 {
            step_fail(UnrecoverableError::PopEmptyStack)
        } else {
            step_cont(
                spec_advance(
                    SpecState {
                        stack: st.stack.drop_last().drop_last().push(
                            spec_apply_fn2(
                                f,
                                st.stack[st.stack.len() - 2],
                                st.stack.last(),
                            ),
                        ),
                        ..st
                    },
                ),
                call_pc,
            )
        },
    }
}

pub open spec fn spawned_seq(o: Option<SpecState>) -> Seq<SpecState> {
    match o {
        None => Seq::empty(),
        Some(s) => seq![s],
    }
}

/// The effect of running a branch for at most `fuel` instructions: the
/// fetch-decode-execute loop of the engine, as a mathematical function.
/// Once the status is decided it is the same for every larger fuel, so
/// stating an outcome "for some fuel" pins it down.
pub open spec fn run_branch(
    prog: SpecProgram,
    st: SpecState,
    call_pc: Option<Address>,
    fuel: nat,
) -> RunResult
    decreases fuel,
{
    if st.pc.0 >= prog.code.len() {
        RunResult { status: RunStatus::Silent, spawned: Seq::empty() }
    } else if fuel == 0 {
        RunResult { status: RunStatus::Running(st, call_pc), spawned: Seq::empty() }
    } else {
        let sc = step_config(prog, st, call_pc);
        match sc.status {
            RunStatus::Running(st2, cp2) => {
                let rec = run_branch(prog, st2, cp2, (fuel - 1) as nat);
                RunResult { status: rec.status, spawned: spawned_seq(sc.spawned) + rec.spawned }
            },
            _ => RunResult { status: sc.status, spawned: spawned_seq(sc.spawned) },
        }
    }
}

/// A decided outcome is stable: once the branch's status at some fuel is
/// no longer `Running`, every larger fuel gives the very same result, so
/// an outcome stated "for some fuel" is the one outcome of the branch.
pub proof fn lemma_run_branch_stable(
    prog: SpecProgram,
    st: SpecState,
    call_pc: Option<Address>,
    n: nat,
    m: nat,
)
    requires
        n <= m,
        !(run_branch(prog, st, call_pc, n).status is Running),
    ensures
        run_branch(prog, st, call_pc, m) == run_branch(prog, st, call_pc, n),
    decreases n,
{
    if st.pc.0 >= prog.code.len() {
    } else {
        assert(n > 0);
        let sc = step_config(prog, st, call_pc);
        match sc.status {
            RunStatus::Running(st2, cp2) => {
                lemma_run_branch_stable(prog, st2, cp2, (n - 1) as nat, (m - 1) as nat);
            },
            _ => {},
        }
    }
}

/// Running one instruction longer: if the branch is still running after
/// `n` instructions, the outcome after `n + 1` is the effect of one more
/// step from where it stands.
pub proof fn lemma_run_branch_extend(
    prog: SpecProgram,
    st: SpecState,
    call_pc: Option<Address>,
    n: nat,
)
    requires
        run_branch(prog, st, call_pc, n).status is Running,
    ensures
        ({
            let rr = run_branch(prog, st, call_pc, n);
            let cur = rr.status->Running_0;
            let ccp = rr.status->Running_1;
            let sc = step_config(prog, cur, ccp);
            run_branch(prog, st, call_pc, n + 1) == RunResult {
                status: match sc.status {
                    RunStatus::Running(s2, c2) => if s2.pc.0 >= prog.code.len() {
                        RunStatus::Silent
                    } else {
                        RunStatus::Running(s2, c2)
                    },
                    other => other,
                },
                spawned: rr.spawned + spawned_seq(sc.spawned),
            }
        }),
    decreases n,
{
    let rr = run_branch(prog, st, call_pc, n);
    let cur = rr.status->Running_0;
    let ccp = rr.status->Running_1;
    let sc = step_config(prog, cur, ccp);
    if n == 0 {
        assert(cur == st && ccp == call_pc);
        assert(st.pc.0 < prog.code.len());
        match sc.status {
            RunStatus::Running(s2, c2) => {
                assert(run_branch(prog, st, call_pc, 1).spawned =~= spawned_seq(sc.spawned)
                    + run_branch(prog, s2, c2, 0).spawned);
                assert(rr.spawned + spawned_seq(sc.spawned) =~= spawned_seq(sc.spawned));
            },
            _ => {
                assert(rr.spawned + spawned_seq(sc.spawned) =~= spawned_seq(sc.spawned));
            },
        }
    } else {
        let sc0 = step_config(prog, st, call_pc);
        match sc0.status {
            RunStatus::Running(s2, c2) => {
                let rec = run_branch(prog, s2, c2, (n - 1) as nat);
                assert(rec.status is Running);
                lemma_run_branch_extend(prog, s2, c2, (n - 1) as nat);
                assert(run_branch(prog, s2, c2, ((n - 1) + 1) as nat) == run_branch(
                    prog,
                    s2,
                    c2,
                    n,
                ));
                assert(rr.spawned + spawned_seq(sc.spawned) =~= spawned_seq(sc0.spawned) + (
                rec.spawned + spawned_seq(sc.spawned)));
            },
            _ => {
                assert(false);
            },
        }
    }
}


// ---------------------------------------------------------------------------
// The dispatch loop
// ---------------------------------------------------------------------------

/// How executing one instruction left the branch.
pub enum StepKind {
    /// The branch keeps running.
    Continue,
    /// The branch reached `Output` and yields this value.
    Produced(Value),
    /// The branch hit an engine defect.
    Failed(UnrecoverableError),
}

/// The shared contract of one instruction dispatch: the whole effect on
/// the branch, the latched return address and the fork queue is the one
/// `step_config` gives.
pub open spec fn step_post(
    prog: SpecProgram,
    prev: SpecState,
    prevcp: Option<Address>,
    env0: SpecEnv,
    env1: SpecEnv,
    st1: SpecState,
    cp1: Option<Address>,
    r: StepKind,
) -> bool {
    let sc = step_config(prog, prev, prevcp);
    &&& env1.program == env0.program
    &&& match r {
        StepKind::Continue => sc.status == RunStatus::Running(st1, cp1) && env1.forks
            == env0.forks + spawned_seq(sc.spawned),
        StepKind::Produced(v) => sc.status == RunStatus::Produced(v@) && env1.forks == env0.forks,
        StepKind::Failed(e) => sc.status == RunStatus::Failed(e) && env1.forks == env0.forks,
    }
}

/// The stack instructions and the no-ops.
#[verifier::rlimit(100)]
fn exec_step_simple(env: &mut Environment, state: &mut State, call_pc: &mut Option<Address>) -> (r:
    StepKind)
    requires
        old(state)@.pc.0 < old(env)@.program.code.len(),
        ({
            let instr = old(env)@.program.code[old(state)@.pc.0 as int];
            ||| instr is Unreachable
            ||| instr is PlaceHolder
            ||| instr is Nop
            ||| instr is Push
            ||| instr is Pop
            ||| instr is Dup
            ||| instr is Const
        }),
    ensures
        step_post(
            old(env)@.program,
            old(state)@,
            *old(call_pc),
            old(env)@,
            final(env)@,
            final(state)@,
            *final(call_pc),
            r,
        ),
{
    let ghost prog0 = env@.program;
    let ghost prev = state@;
    let ghost prevcp = *call_pc;
    let fetched = env.program.fetch_code(state.pc);
    let code = match fetched {
        Some(c) => c,
        None => {
            proof {
                assert(false);
            }
            return StepKind::Failed(UnrecoverableError::PopEmptyStack);
        },
    };
    proof {
        vstd::std_specs::vec::axiom_spec_len(&env.program.code);
        assert(prog0.code.len() <= usize::MAX);
    }
    match code {
        ByteCode::Unreachable => {
            state.pc.next();
        },
        ByteCode::PlaceHolder => {
            state.pc.next();
        },
        ByteCode::Nop => {
            state.pc.next();
        },
        ByteCode::Push(v) => {
            let c = v.clone();
            state.push(c);
            state.pc.next();
        },
        ByteCode::Pop => {
            match state.pop() {
                Ok(_discarded) => {
                    state.pc.next();
                },
                Err(e) => {
                    return StepKind::Failed(e);
                },
            }
        },
        ByteCode::Dup => {
            match state.dup() {
                Ok(()) => {
                    state.pc.next();
                },
                Err(e) => {
                    return StepKind::Failed(e);
                },
            }
        },
        ByteCode::Const(v) => {
            match state.pop() {
                Ok(_discarded) => {
                    let c = v.clone();
                    state.push(c);
                    state.pc.next();
                },
                Err(e) => {
                    return StepKind::Failed(e);
                },
            }
        },
        _ => {
            proof {
                assert(false);
            }
        },
    }
    proof {
        let sc = step_config(prog0, prev, prevcp);
        assert(state@ =~= sc.status->Running_0);
        assert(env@.forks =~= old(env)@.forks + spawned_seq(sc.spawned));
    }
    StepKind::Continue
}

/// The slot instructions.
#[verifier::rlimit(100)]
fn exec_step_slots(env: &mut Environment, state: &mut State, call_pc: &mut Option<Address>) -> (r:
    StepKind)
    requires
        old(state)@.pc.0 < old(env)@.program.code.len(),
        ({
            let instr = old(env)@.program.code[old(state)@.pc.0 as int];
            ||| instr is Load
            ||| instr is Store
            ||| instr is Append
        }),
    ensures
        step_post(
            old(env)@.program,
            old(state)@,
            *old(call_pc),
            old(env)@,
            final(env)@,
            final(state)@,
            *final(call_pc),
            r,
        ),
{
    let ghost prog0 = env@.program;
    let ghost prev = state@;
    let ghost prevcp = *call_pc;
    let fetched = env.program.fetch_code(state.pc);
    let code = match fetched {
        Some(c) => c,
        None => {
            proof {
                assert(false);
            }
            return StepKind::Failed(UnrecoverableError::PopEmptyStack);
        },
    };
    proof {
        vstd::std_specs::vec::axiom_spec_len(&env.program.code);
        assert(prog0.code.len() <= usize::MAX);
    }
    match code {
        ByteCode::Load(scoped_slot) => {
            match state.slot(scoped_slot) {
                Ok(Some(v)) => {
                    state.push(v);
                    state.pc.next();
                },
                Ok(None) => {
                    return StepKind::Failed(UnrecoverableError::UninitializedSlot);
                },
                Err(e) => {
                    return StepKind::Failed(e);
                },
            }
        },
        ByteCode::Store(scoped_slot) => {
            let value = match state.pop() {
                Ok(v) => v,
                Err(e) => {
                    return StepKind::Failed(e);
                },
            };
            match state.set_slot(scoped_slot, Some(value)) {
                Ok(()) => {
                    state.pc.next();
                },
                Err(e) => {
                    return StepKind::Failed(e);
                },
            }
        },
        ByteCode::Append(scoped_slot) => {
            let value = match state.pop() {
                Ok(v) => v,
                Err(e) => {
                    return StepKind::Failed(e);
                },
            };
            let ghost gvalue = value@;
            let slot_content = match state.slot(scoped_slot) {
                Ok(Some(c)) => c,
                Ok(None) => {
                    return StepKind::Failed(UnrecoverableError::UninitializedSlot);
                },
                Err(e) => {
                    return StepKind::Failed(e);
                },
            };
            let ghost gcontent = slot_content@;
            match slot_content {
                Value::Array(mut items) => {
                    let ghost gitems = gcontent->Array_0;
                    proof {
                        assert(gitems.len() == items@.len());
                        assert(forall|j: int|
                            0 <= j < items@.len() ==> gitems[j] == #[trigger] items@[j]@);
                    }
                    items.push(value);
                    let replacement = Value::Array(items);
                    proof {
                        crate::value::lemma_array_view(&replacement);
                        assert(replacement@->Array_0 =~= gitems.push(gvalue));
                        assert(replacement@ == SpecValue::Array(gitems.push(gvalue)));
                    }
                    match state.set_slot(scoped_slot, Some(replacement)) {
                        Ok(()) => {
                            state.pc.next();
                        },
                        Err(_e) => {
                            proof {
                                assert(false);
                            }
                            return StepKind::Failed(UnrecoverableError::TypeMismatch);
                        },
                    }
                },
                _other => {
                    return StepKind::Failed(UnrecoverableError::TypeMismatch);
                },
            }
        },
        _ => {
            proof {
                assert(false);
            }
        },
    }
    proof {
        let sc = step_config(prog0, prev, prevcp);
        assert(state@ =~= sc.status->Running_0);
        assert(env@.forks =~= old(env)@.forks + spawned_seq(sc.spawned));
    }
    StepKind::Continue
}

/// The control-flow instructions.
#[verifier::rlimit(100)]
fn exec_step_control(env: &mut Environment, state: &mut State, call_pc: &mut Option<Address>) -> (r:
    StepKind)
    requires
        old(state)@.pc.0 < old(env)@.program.code.len(),
        ({
            let instr = old(env)@.program.code[old(state)@.pc.0 as int];
            ||| instr is Fork
            ||| instr is Jump
            ||| instr is JumpUnless
            ||| instr is Call
            ||| instr is NewScope
            ||| instr is Ret
        }),
    ensures
        step_post(
            old(env)@.program,
            old(state)@,
            *old(call_pc),
            old(env)@,
            final(env)@,
            final(state)@,
            *final(call_pc),
            r,
        ),
{
    let ghost prog0 = env@.program;
    let ghost prev = state@;
    let ghost prevcp = *call_pc;
    let ghost mut gspawned: Option<SpecState> = None;
    let fetched = env.program.fetch_code(state.pc);
    let code = match fetched {
        Some(c) => c,
        None => {
            proof {
                assert(false);
            }
            return StepKind::Failed(UnrecoverableError::PopEmptyStack);
        },
    };
    proof {
        vstd::std_specs::vec::axiom_spec_len(&env.program.code);
        assert(prog0.code.len() <= usize::MAX);
    }
    match code {
        ByteCode::Fork { fork_pc } => {
            let fpc = *fork_pc;
            env.push_fork(state, fpc);
            state.pc.next();
            proof {
                gspawned = Some(SpecState { pc: fpc, ..prev });
            }
        },
        ByteCode::Jump(address) => {
            state.pc = *address;
        },
        ByteCode::JumpUnless(address) => {
            let addr = *address;
            let value = match state.pop() {
                Ok(v) => v,
                Err(e) => {
                    return StepKind::Failed(e);
                },
            };
            if !truthy(&value) {
                state.pc = addr;
            } else {
                state.pc.next();
            }
        },
        ByteCode::Call { function, return_address } => {
            let f = *function;
            let ra = *return_address;
            if call_pc.is_some() {
                return StepKind::Failed(UnrecoverableError::CallWithoutNewScope);
            }
            *call_pc = Some(ra);
            state.pc = f;
        },
        ByteCode::NewScope { id, variable_cnt, closure_cnt } => {
            let gid = *id;
            let vc = *variable_cnt;
            let cc = *closure_cnt;
            match *call_pc {
                None => {
                    return StepKind::Failed(UnrecoverableError::NewScopeWithoutCall);
                },
                Some(ret) => {
                    state.push_scope(gid, vc, cc, ret);
                    *call_pc = None;
                    state.pc.next();
                },
            }
        },
        ByteCode::Ret => {
            match state.pop_scope() {
                Ok(addr) => {
                    state.pc = addr;
                },
                Err(e) => {
                    return StepKind::Failed(e);
                },
            }
        },
        _ => {
            proof {
                assert(false);
            }
        },
    }
    proof {
        let sc = step_config(prog0, prev, prevcp);
        assert(state@ =~= sc.status->Running_0);
        assert(sc.spawned == gspawned);
        assert(env@.forks =~= old(env)@.forks + spawned_seq(sc.spawned));
    }
    StepKind::Continue
}

/// `Output` and the intrinsic applications.
#[verifier::rlimit(100)]
fn exec_step_apply(env: &mut Environment, state: &mut State, call_pc: &mut Option<Address>) -> (r:
    StepKind)
    requires
        old(state)@.pc.0 < old(env)@.program.code.len(),
        ({
            let instr = old(env)@.program.code[old(state)@.pc.0 as int];
            ||| instr is Output
            ||| instr is Intrinsic1
            ||| instr is Intrinsic2
        }),
    ensures
        step_post(
            old(env)@.program,
            old(state)@,
            *old(call_pc),
            old(env)@,
            final(env)@,
            final(state)@,
            *final(call_pc),
            r,
        ),
{
    let ghost prog0 = env@.program;
    let ghost prev = state@;
    let ghost prevcp = *call_pc;
    let fetched = env.program.fetch_code(state.pc);
    let code = match fetched {
        Some(c) => c,
        None => {
            proof {
                assert(false);
            }
            return StepKind::Failed(UnrecoverableError::PopEmptyStack);
        },
    };
    proof {
        vstd::std_specs::vec::axiom_spec_len(&env.program.code);
        assert(prog0.code.len() <= usize::MAX);
    }
    match code {
        ByteCode::Output => {
            match state.pop() {
                Ok(value) => {
                    return StepKind::Produced(value);
                },
                Err(e) => {
                    return StepKind::Failed(e);
                },
            }
        },
        ByteCode::Intrinsic1(nf) => {
            let func = nf.func;
            let arg = match state.pop() {
                Ok(v) => v,
                Err(e) => {
                    return StepKind::Failed(e);
                },
            };
            let res = apply_fn1(&func, arg);
            state.push(res);
            state.pc.next();
        },
        ByteCode::Intrinsic2(nf) => {
            let func = nf.func;
            let rhs = match state.pop() {
                Ok(v) => v,
                Err(e) => {
                    return StepKind::Failed(e);
                },
            };
            let lhs = match state.pop() {
                Ok(v) => v,
                Err(e) => {
                    return StepKind::Failed(e);
                },
            };
            let res = apply_fn2(&func, lhs, rhs);
            state.push(res);
            state.pc.next();
        },
        _ => {
            proof {
                assert(false);
            }
        },
    }
    proof {
        let sc = step_config(prog0, prev, prevcp);
        assert(state@ =~= sc.status->Running_0);
        assert(env@.forks =~= old(env)@.forks + spawned_seq(sc.spawned));
    }
    StepKind::Continue
}

/// Execute the single instruction at the branch's program counter:
/// exhaustive dispatch over the closed instruction set.
#[verifier::rlimit(60)]
fn exec_step(env: &mut Environment, state: &mut State, call_pc: &mut Option<Address>) -> (r:
    StepKind)
    requires
        old(state)@.pc.0 < old(env)@.program.code.len(),
    ensures
        step_post(
            old(env)@.program,
            old(state)@,
            *old(call_pc),
            old(env)@,
            final(env)@,
            final(state)@,
            *final(call_pc),
            r,
        ),
{
    let fetched = env.program.fetch_code(state.pc);
    let kind: u8 = match fetched {
        Some(code) => match code {
            ByteCode::Unreachable => 0,
            ByteCode::PlaceHolder => 0,
            ByteCode::Nop => 0,
            ByteCode::Push(_) => 0,
            ByteCode::Pop => 0,
            ByteCode::Dup => 0,
            ByteCode::Const(_) => 0,
            ByteCode::Load(_) => 1,
            ByteCode::Store(_) => 1,
            ByteCode::Append(_) => 1,
            ByteCode::Fork { .. } => 2,
            ByteCode::Jump(_) => 2,
            ByteCode::JumpUnless(_) => 2,
            ByteCode::Call { .. } => 2,
            ByteCode::NewScope { .. } => 2,
            ByteCode::Ret => 2,
            ByteCode::Output => 3,
            ByteCode::Intrinsic1(_) => 3,
            ByteCode::Intrinsic2(_) => 3,
        },
        None => {
            proof {
                assert(false);
            }
            0
        },
    };
    if kind == 0 {
        exec_step_simple(env, state, call_pc)
    } else if kind == 1 {
        exec_step_slots(env, state, call_pc)
    } else if kind == 2 {
        exec_step_control(env, state, call_pc)
    } else {
        exec_step_apply(env, state, call_pc)
    }
}

/// Advance the most recently queued branch to completion: run its
/// fetch-decode-execute loop until it yields a value (`Ok(Some(..))`),
/// falls off the end of the listing (`Ok(None)`, benign non-production),
/// or hits an engine defect (`Err(..)`). Siblings it forks along the way
/// are queued; other pending branches are unaffected. With no pending
/// branch the sequence is exhausted and the call returns `Ok(None)`.
///
/// Each request is bounded by a step budget of `usize::MAX` instructions,
/// beyond any reachable computation; a branch that exceeds it is abandoned
/// with `StepLimitExceeded`.
#[verifier::loop_isolation(false)]
#[verifier::rlimit(60)]
pub fn run_code(env: &mut Environment) -> (r: Result<Option<Value>, UnrecoverableError>)
    ensures
        final(env)@.program == old(env)@.program,
        old(env)@.forks.len() == 0 ==> final(env)@ == old(env)@ && r == Ok::<
            Option<Value>,
            UnrecoverableError,
        >(None),
        old(env)@.forks.len() > 0 ==> ((exists|fuel: nat|
            {
                let rr = #[trigger] run_branch(
                    old(env)@.program,
                    old(env)@.forks.last(),
                    None,
                    fuel,
                );
                &&& final(env)@.forks == old(env)@.forks.drop_last() + rr.spawned
                &&& match r {
                    Ok(Some(v)) => rr.status == RunStatus::Produced(v@),
                    Ok(None) => rr.status == RunStatus::Silent,
                    Err(e) => rr.status == RunStatus::Failed(e),
                }
            }) || (r == Err::<Option<Value>, UnrecoverableError>(
            UnrecoverableError::StepLimitExceeded,
        ) && run_branch(old(env)@.program, old(env)@.forks.last(), None, usize::MAX as nat).status
            is Running && final(env)@.forks == old(env)@.forks.drop_last() + run_branch(
            old(env)@.program,
            old(env)@.forks.last(),
            None,
            usize::MAX as nat,
        ).spawned)),
{
    let state_opt = env.pop_fork();
    let mut state = match state_opt {
        Some(st) => st,
        None => {
            return Ok(None);
        },
    };
    let ghost prog = env@.program;
    let ghost init = state@;
    let mut call_pc: Option<Address> = None;
    let mut budget: usize = usize::MAX;
    let ghost mut steps: nat = 0nat;
    loop
        invariant
            env@.program == old(env)@.program,
            prog == old(env)@.program,
            old(env)@.forks.len() > 0,
            init == old(env)@.forks.last(),
            steps + budget == usize::MAX as nat,
            env@.forks == old(env)@.forks.drop_last() + run_branch(
                prog,
                init,
                None,
                steps,
            ).spawned,
            run_branch(prog, init, None, steps).status == (if state@.pc.0 < prog.code.len() {
                RunStatus::Running(state@, call_pc)
            } else {
                RunStatus::Silent
            }),
        decreases budget,
    {
        let ghost prev = state@;
        let ghost prevcp = call_pc;
        if state.pc.0 >= env.program.code.len() {
            proof {
                assert(run_branch(prog, init, None, steps).status == RunStatus::Silent);
            }
            return Ok(None);
        }
        if budget == 0 {
            proof {
                assert(run_branch(prog, init, None, usize::MAX as nat).status
                    == RunStatus::Running(state@, call_pc));
            }
            return Err(UnrecoverableError::StepLimitExceeded);
        }
        budget = budget - 1;
        let outcome = exec_step(env, &mut state, &mut call_pc);
        proof {
            lemma_run_branch_extend(prog, init, None, steps);
        }
        match outcome {
            StepKind::Continue => {
                proof {
                    let sc = step_config(prog, prev, prevcp);
                    let oldrr = run_branch(prog, init, None, steps);
                    let newrr = run_branch(prog, init, None, (steps + 1) as nat);
                    assert(newrr.spawned =~= oldrr.spawned + spawned_seq(sc.spawned));
                    assert(env@.forks =~= old(env)@.forks.drop_last() + newrr.spawned);
                    steps = steps + 1nat;
                }
            },
            StepKind::Produced(value) => {
                proof {
                    lemma_step_terminal(prog, init, steps, prev, prevcp);
                    assert(run_branch(prog, init, None, (steps + 1) as nat).status
                        == RunStatus::Produced(value@));
                }
                return Ok(Some(value));
            },
            StepKind::Failed(e) => {
                proof {
                    lemma_step_terminal(prog, init, steps, prev, prevcp);
                    assert(run_branch(prog, init, None, (steps + 1) as nat).status
                        == RunStatus::Failed(e));
                }
                return Err(e);
            },
        }
    }
}

/// One more step from a still-running branch that now reaches a terminal
/// status: the branch's outcome at the next fuel is that status, and no
/// sibling is queued by the final step.
proof fn lemma_step_terminal(
    prog: SpecProgram,
    init: SpecState,
    steps: nat,
    prev: SpecState,
    prevcp: Option<Address>,
)
    requires
        run_branch(prog, init, None, steps).status == RunStatus::Running(prev, prevcp),
        prev.pc.0 < prog.code.len(),
        !(step_config(prog, prev, prevcp).status is Running),
        step_config(prog, prev, prevcp).spawned is None,
    ensures
        run_branch(prog, init, None, (steps + 1) as nat).status == step_config(
            prog,
            prev,
            prevcp,
        ).status,
        run_branch(prog, init, None, (steps + 1) as nat).spawned == run_branch(
            prog,
            init,
            None,
            steps,
        ).spawned,
{
    lemma_run_branch_extend(prog, init, None, steps);
    assert(run_branch(prog, init, None, (steps + 1) as nat).spawned =~= run_branch(
        prog,
        init,
        None,
        steps,
    ).spawned);
}


} // verus!

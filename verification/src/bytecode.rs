//! The instruction set: a program is a flat, ordered instruction listing
//! plus an entry address, produced by an external frontend and consumed by
//! the execution engine. Reserved operations for future language surface
//! (literal construction, closures, try/catch, iteration, labels, path
//! expressions) are extension points of this listing, not part of the
//! executable subset defined here.

use vstd::prelude::*;
use crate::comparator::{cmp_value, comparison_holds, Comparator};
use crate::value::{SpecValue, Value};

verus! {

/// A position in the instruction listing.
#[derive(Debug, Clone, Copy, PartialEq, Eq, Structural)]
pub struct Address(pub usize);

impl Address {
    /// Advance to the next instruction.
    pub fn next(&mut self)
        requires
            old(self).0 < usize::MAX,
        ensures
            final(self).0 == old(self).0 + 1,
    {
        self.0 = self.0 + 1;
    }
}

/// The statically assigned identity of a lexical scope, shared by all of
/// its invocations, including recursive re-entries.
#[derive(Debug, Clone, Copy, PartialEq, Eq, Structural)]
pub struct ScopeId(pub usize);

/// A compile-time-resolved slot address: a scope identity and a slot index
/// within that scope, never reallocated at runtime.
#[derive(Debug, Clone, Copy, PartialEq, Eq, Structural)]
pub struct ScopedSlot(pub ScopeId, pub usize);

/// A named, pure value transform supplied by the external intrinsic
/// library; the name serves diagnostics only.
#[derive(Debug, Clone)]
pub struct NamedFunction<F: Clone> {
    pub name: &'static str,
    pub func: F,
}

/// The unary transforms of the intrinsic library's executable subset.
#[derive(Debug, Clone, Copy, PartialEq, Eq, Structural)]
pub enum Fn1 {
    Truthiness,
}

/// The binary transforms of the intrinsic library's executable subset: the
/// six relational operations backed by the comparator.
#[derive(Debug, Clone, Copy, PartialEq, Eq, Structural)]
pub enum Fn2 {
    Comparison(Comparator),
}

pub type NamedFn1 = NamedFunction<Fn1>;

pub type NamedFn2 = NamedFunction<Fn2>;

/// Whether a value counts as true when a branch condition consumes it:
/// every value but `Null` and `False` does.
pub open spec fn spec_truthy(v: SpecValue) -> bool {
    !(v is Null || v is False)
}

/// Whether a value counts as true when a branch condition consumes it.
pub fn truthy(v: &Value) -> (r: bool)
    ensures
        r == spec_truthy(v@),
{
    !(matches!(v, Value::Null) || matches!(v, Value::False))
}

/// What a unary intrinsic returns for a given operand.
pub open spec fn spec_apply_fn1(f: Fn1, v: SpecValue) -> SpecValue {
    match f {
        Fn1::Truthiness => if spec_truthy(v) {
            SpecValue::True
        } else {
            SpecValue::False
        },
    }
}

/// What a binary intrinsic returns for given operands.
pub open spec fn spec_apply_fn2(f: Fn2, lhs: SpecValue, rhs: SpecValue) -> SpecValue {
    match f {
        Fn2::Comparison(c) => if comparison_holds(c, cmp_value(lhs, rhs)) {
            SpecValue::True
        } else {
            SpecValue::False
        },
    }
}

/// Apply a unary intrinsic to its popped operand. Intrinsics are pure and
/// total over values: they cannot fail.
pub fn apply_fn1(f: &Fn1, v: Value) -> (r: Value)
    ensures
        r@ == spec_apply_fn1(*f, v@),
{
    match f {
        Fn1::Truthiness => if truthy(&v) {
            Value::True
        } else {
            Value::False
        },
    }
}

/// Apply a binary intrinsic to its popped operands.
pub fn apply_fn2(f: &Fn2, lhs: Value, rhs: Value) -> (r: Value)
    ensures
        r@ == spec_apply_fn2(*f, lhs@, rhs@),
{
    match f {
        Fn2::Comparison(c) => crate::comparator::apply_comparison(c, &lhs, &rhs),
    }
}

/// One instruction of the executable subset.
#[derive(Debug, Clone)]
pub enum ByteCode {
    Unreachable,
    PlaceHolder,
    Nop,
    Push(Value),
    Pop,
    Dup,
    Const(Value),
    Load(ScopedSlot),
    Store(ScopedSlot),
    Append(ScopedSlot),
    Fork { fork_pc: Address },
    Jump(Address),
    JumpUnless(Address),
    Call { function: Address, return_address: Address },
    NewScope { id: ScopeId, variable_cnt: usize, closure_cnt: usize },
    Ret,
    Output,
    Intrinsic1(NamedFn1),
    Intrinsic2(NamedFn2),
}

/// The model of an instruction: pushed constants are modelled, and an
/// intrinsic is modelled by the transform it applies; its diagnostic name
/// carries no meaning.
pub enum SpecInstr {
    Unreachable,
    PlaceHolder,
    Nop,
    Push(SpecValue),
    Pop,
    Dup,
    Const(SpecValue),
    Load(ScopedSlot),
    Store(ScopedSlot),
    Append(ScopedSlot),
    Fork { fork_pc: Address },
    Jump(Address),
    JumpUnless(Address),
    Call { function: Address, return_address: Address },
    NewScope { id: ScopeId, variable_cnt: usize, closure_cnt: usize },
    Ret,
    Output,
    Intrinsic1(Fn1),
    Intrinsic2(Fn2),
}

impl View for ByteCode {
    type V = SpecInstr;

    open spec fn view(&self) -> SpecInstr {
        match self {
            ByteCode::Unreachable => SpecInstr::Unreachable,
            ByteCode::PlaceHolder => SpecInstr::PlaceHolder,
            ByteCode::Nop => SpecInstr::Nop,
            ByteCode::Push(v) => SpecInstr::Push(v@),
            ByteCode::Pop => SpecInstr::Pop,
            ByteCode::Dup => SpecInstr::Dup,
            ByteCode::Const(v) => SpecInstr::Const(v@),
            ByteCode::Load(s) => SpecInstr::Load(*s),
            ByteCode::Store(s) => SpecInstr::Store(*s),
            ByteCode::Append(s) => SpecInstr::Append(*s),
            ByteCode::Fork { fork_pc } => SpecInstr::Fork { fork_pc: *fork_pc },
            ByteCode::Jump(a) => SpecInstr::Jump(*a),
            ByteCode::JumpUnless(a) => SpecInstr::JumpUnless(*a),
            ByteCode::Call { function, return_address } => SpecInstr::Call {
                function: *function,
                return_address: *return_address,
            },
            ByteCode::NewScope { id, variable_cnt, closure_cnt } => SpecInstr::NewScope {
                id: *id,
                variable_cnt: *variable_cnt,
                closure_cnt: *closure_cnt,
            },
            ByteCode::Ret => SpecInstr::Ret,
            ByteCode::Output => SpecInstr::Output,
            ByteCode::Intrinsic1(nf) => SpecInstr::Intrinsic1(nf.func),
            ByteCode::Intrinsic2(nf) => SpecInstr::Intrinsic2(nf.func),
        }
    }
}

/// The model of a program: the models of its instructions, in order, and
/// the entry address.
#[verifier::ext_equal]
pub struct SpecProgram {
    pub code: Seq<SpecInstr>,
    pub entry: Address,
}

/// A compiled program: a flat instruction listing and an entry address,
/// assumed well-formed by the engine. It is read-only for a whole run.
#[derive(Debug, Clone)]
pub struct Program {
    pub code: Vec<ByteCode>,
    pub entry_point: Address,
}

impl View for Program {
    type V = SpecProgram;

    open spec fn view(&self) -> SpecProgram {
        SpecProgram {
            code: Seq::new(self.code@.len(), |i: int| self.code@[i]@),
            entry: self.entry_point,
        }
    }
}

impl Program {
    /// The instruction at `pc`, or nothing when `pc` lies off the end of
    /// the listing (the benign termination of a branch).
    pub fn fetch_code(&self, pc: Address) -> (r: Option<&ByteCode>)
        ensures
            match r {
                Some(c) => pc.0 < self@.code.len() && c@ == self@.code[pc.0 as int],
                None => pc.0 >= self@.code.len(),
            },
    {
        if pc.0 < self.code.len() {
            Some(&self.code[pc.0])
        } else {
            None
        }
    }
}

} // verus!

use vstd::prelude::*;
use crate::ir::value::{Const, ValueShape};
use crate::common::lang::{Op, OpView};
use crate::vm::condition::CompareOp;
use crate::vm::symbol::{BlockSymbol, FunSymbol, RegSymbol, TySymbol};

verus! {

/// A reference to a register, a function or a type.
#[derive(Debug, Clone, Copy)]
pub enum Ref {
    Reg(RegSymbol),
    Fun(FunSymbol),
    Ty(TySymbol),
}

/// A value that an instruction works on: a constant, a reference, or no value.
#[derive(Debug)]
pub enum Value {
    Const(Const),
    Ref(Ref),
    Nothing,
    /// Marks where the arguments of a call through a function reference end.
    FunRefCanary,
}

/// A condition that the machine can test.
#[derive(Debug)]
pub enum Condition {
    /// Always met.
    Always,
    /// Never met.
    Never,
    /// Met when the comparison of two values holds.
    Compare(Value, CompareOp, Value),
    /// Met when a value is truthy.
    Truthy(Value),
}

/// When a jump is taken.
#[derive(Debug, Clone, Copy, PartialEq, Eq, Structural)]
pub enum JumpCond {
    /// Always.
    Always,
    /// When the last test failed.
    CondFalse,
}

/// An instruction of the virtual machine.
#[derive(Debug)]
pub enum Bc {
    /// Pushes a value onto the stack.
    Push(Value),
    /// Stores a value into a reference.
    Store(Ref, Value),
    /// Exits the current function, returning the given value.
    PushRet(Value),
    /// Calls the function with the given symbol.
    Call(FunSymbol),
    /// Pops a function reference off the stack, and calls it.
    PopCall,
    /// Pops a value off the stack into a reference.
    PopStore(Ref),
    /// Exits the current function, returning the value on top of the stack.
    Ret,
    /// Pushes the value that a reference points to.
    DerefPush(Ref),
    /// Pops a reference and stores the given value where it points.
    PopDerefStore(Value),
    /// Pops a value off the stack and sets the test flag by its truth.
    PopTest,
    /// Jumps to a labelled block, under a condition.
    JumpSymbol(BlockSymbol, JumpCond),
    /// Applies a binary operator to two values and pushes the result.
    BinOpPush(Value, Op, Value),
    /// Applies a binary operator to two values and stores the result into a reference.
    BinOpStore(Value, Op, Value, Ref),
    /// Tests a condition, setting the comparison flag.
    Compare(Condition),
}

/// The shape of a reference: which register one names is left out.
pub enum RefShape {
    Reg,
    Fun(FunSymbol),
    Ty(TySymbol),
}

/// The shape of a value that an instruction works on.
pub enum OperandShape {
    Const(ValueShape),
    Ref(RefShape),
    Nothing,
    FunRefCanary,
}

/// The shape of a condition.
pub enum ConditionShape {
    Always,
    Never,
    Compare(OperandShape, CompareOp, OperandShape),
    Truthy(OperandShape),
}

/// The shape of an instruction: which registers it names is left out.
pub enum BcShape {
    Push(OperandShape),
    Store(RefShape, OperandShape),
    PushRet(OperandShape),
    Call(FunSymbol),
    PopCall,
    PopStore(RefShape),
    Ret,
    DerefPush(RefShape),
    PopDerefStore(OperandShape),
    PopTest,
    JumpSymbol(BlockSymbol, JumpCond),
    BinOpPush(OperandShape, OpView, OperandShape),
    BinOpStore(OperandShape, OpView, OperandShape, RefShape),
    Compare(ConditionShape),
}

/// The shape of a constant.
pub open spec fn const_shape(c: Const) -> ValueShape {
    match c {
        Const::Str(s) => ValueShape::Str(s@),
        Const::Int(s, r) => ValueShape::Int(s@, r),
        Const::Float(s) => ValueShape::Float(s@),
    }
}

/// The shape of a reference.
pub open spec fn ref_shape(r: Ref) -> RefShape {
    match r {
        Ref::Reg(_) => RefShape::Reg,
        Ref::Fun(f) => RefShape::Fun(f),
        Ref::Ty(t) => RefShape::Ty(t),
    }
}

/// The shape of a value that an instruction works on.
pub open spec fn operand_shape(v: Value) -> OperandShape {
    match v {
        Value::Const(c) => OperandShape::Const(const_shape(c)),
        Value::Ref(r) => OperandShape::Ref(ref_shape(r)),
        Value::Nothing => OperandShape::Nothing,
        Value::FunRefCanary => OperandShape::FunRefCanary,
    }
}

/// The shape of a condition.
pub open spec fn condition_shape(c: Condition) -> ConditionShape {
    match c {
        Condition::Always => ConditionShape::Always,
        Condition::Never => ConditionShape::Never,
        Condition::Compare(l, op, r) => ConditionShape::Compare(operand_shape(l), op, operand_shape(r)),
        Condition::Truthy(v) => ConditionShape::Truthy(operand_shape(v)),
    }
}

/// The shape of an instruction.
pub open spec fn bc_shape(b: Bc) -> BcShape {
    match b {
        Bc::Push(v) => BcShape::Push(operand_shape(v)),
        Bc::Store(r, v) => BcShape::Store(ref_shape(r), operand_shape(v)),
        Bc::PushRet(v) => BcShape::PushRet(operand_shape(v)),
        Bc::Call(f) => BcShape::Call(f),
        Bc::PopCall => BcShape::PopCall,
        Bc::PopStore(r) => BcShape::PopStore(ref_shape(r)),
        Bc::Ret => BcShape::Ret,
        Bc::DerefPush(r) => BcShape::DerefPush(ref_shape(r)),
        Bc::PopDerefStore(v) => BcShape::PopDerefStore(operand_shape(v)),
        Bc::PopTest => BcShape::PopTest,
        Bc::JumpSymbol(b, c) => BcShape::JumpSymbol(b, c),
        Bc::BinOpPush(l, op, r) => BcShape::BinOpPush(operand_shape(l), op@, operand_shape(r)),
        Bc::BinOpStore(l, op, r, s) => BcShape::BinOpStore(operand_shape(l), op@, operand_shape(r), ref_shape(s)),
        Bc::Compare(c) => BcShape::Compare(condition_shape(c)),
    }
}

/// The reference that an instruction stores into, for the instructions that store one.
pub open spec fn stored_ref(b: Bc) -> Option<Ref> {
    match b {
        Bc::Store(r, _) => Some(r),
        Bc::PopStore(r) => Some(r),
        Bc::BinOpStore(_, _, _, r) => Some(r),
        _ => None,
    }
}

/// The shapes of a list of instructions, in order.
pub open spec fn code_shape(code: Seq<Bc>) -> Seq<BcShape> {
    code.map_values(|b: Bc| bc_shape(b))
}

} // verus!

verus! {

/// The shapes of two lists of instructions, one after the other, are those of each.
pub proof fn lemma_code_shape_add(a: Seq<Bc>, b: Seq<Bc>)
    ensures
        code_shape(a + b) == code_shape(a) + code_shape(b),
{
    assert(code_shape(a + b) =~= code_shape(a) + code_shape(b));
}

/// Adding an instruction at the end adds its shape at the end.
pub proof fn lemma_code_shape_push(a: Seq<Bc>, b: Bc)
    ensures
        code_shape(a.push(b)) == code_shape(a).push(bc_shape(b)),
{
    assert(code_shape(a.push(b)) =~= code_shape(a).push(bc_shape(b)));
}

} // verus!

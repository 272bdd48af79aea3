//! Identifiers of bindings, functions and built-in operations.

use vstd::prelude::*;

verus! {

/// An opaque, globally unique identifier. Two symbols are the same binding
/// exactly when their numbers are equal.
#[derive(Clone, Copy, Debug, PartialEq, Eq, Hash, Structural)]
pub struct Symbol {
    pub id: u64,
}

pub const INT_ADD: u64 = 1;

pub const NUM_ADD: u64 = 2;

pub const FLOAT_ADD: u64 = 3;

pub const INT_SUB: u64 = 4;

pub const NUM_SUB: u64 = 5;

pub const FLOAT_SUB: u64 = 6;

pub const NUM_MUL: u64 = 7;

pub const NUM_NEG: u64 = 8;

pub const INT_EQ_I64: u64 = 9;

pub const INT_EQ_I8: u64 = 10;

pub const INT_EQ_I1: u64 = 11;

pub const FLOAT_EQ: u64 = 12;

pub const LIST_GET_UNSAFE: u64 = 13;

pub const LIST_SET: u64 = 14;

pub const LIST_SET_IN_PLACE: u64 = 15;

/// The symbols up to this number are reserved for built-in operations.
pub const LAST_BUILTIN: u64 = 15;

/// A well-known operation that is lowered to native instructions in place of
/// a call.
#[derive(Clone, Copy, Debug, PartialEq, Eq, Structural)]
pub enum BuiltinOp {
    IntAdd,
    FloatAdd,
    IntSub,
    FloatSub,
    IntMul,
    IntNeg,
    IntEq64,
    IntEq8,
    IntEq1,
    FloatEq,
    ListGetUnsafe,
    ListSet,
    ListSetInPlace,
}

impl Symbol {
    /// The built-in operation that the symbol names, if it names one.
    pub open spec fn builtin(self) -> Option<BuiltinOp> {
        if self.id == INT_ADD || self.id == NUM_ADD {
            Some(BuiltinOp::IntAdd)
        } else if self.id == FLOAT_ADD {
            Some(BuiltinOp::FloatAdd)
        } else if self.id == INT_SUB || self.id == NUM_SUB {
            Some(BuiltinOp::IntSub)
        } else if self.id == FLOAT_SUB {
            Some(BuiltinOp::FloatSub)
        } else if self.id == NUM_MUL {
            Some(BuiltinOp::IntMul)
        } else if self.id == NUM_NEG {
            Some(BuiltinOp::IntNeg)
        } else if self.id == INT_EQ_I64 {
            Some(BuiltinOp::IntEq64)
        } else if self.id == INT_EQ_I8 {
            Some(BuiltinOp::IntEq8)
        } else if self.id == INT_EQ_I1 {
            Some(BuiltinOp::IntEq1)
        } else if self.id == FLOAT_EQ {
            Some(BuiltinOp::FloatEq)
        } else if self.id == LIST_GET_UNSAFE {
            Some(BuiltinOp::ListGetUnsafe)
        } else if self.id == LIST_SET {
            Some(BuiltinOp::ListSet)
        } else if self.id == LIST_SET_IN_PLACE {
            Some(BuiltinOp::ListSetInPlace)
        } else {
            None
        }
    }

    /// Looks the symbol up in the table of built-in operations.
    pub fn lookup_builtin(self) -> (op: Option<BuiltinOp>)
        ensures
            op == self.builtin(),
    {
        if self.id == INT_ADD || self.id == NUM_ADD {
            Some(BuiltinOp::IntAdd)
        } else if self.id == FLOAT_ADD {
            Some(BuiltinOp::FloatAdd)
        } else if self.id == INT_SUB || self.id == NUM_SUB {
            Some(BuiltinOp::IntSub)
        } else if self.id == FLOAT_SUB {
            Some(BuiltinOp::FloatSub)
        } else if self.id == NUM_MUL {
            Some(BuiltinOp::IntMul)
        } else if self.id == NUM_NEG {
            Some(BuiltinOp::IntNeg)
        } else if self.id == INT_EQ_I64 {
            Some(BuiltinOp::IntEq64)
        } else if self.id == INT_EQ_I8 {
            Some(BuiltinOp::IntEq8)
        } else if self.id == INT_EQ_I1 {
            Some(BuiltinOp::IntEq1)
        } else if self.id == FLOAT_EQ {
            Some(BuiltinOp::FloatEq)
        } else if self.id == LIST_GET_UNSAFE {
            Some(BuiltinOp::ListGetUnsafe)
        } else if self.id == LIST_SET {
            Some(BuiltinOp::ListSet)
        } else if self.id == LIST_SET_IN_PLACE {
            Some(BuiltinOp::ListSetInPlace)
        } else {
            None
        }
    }
}

impl BuiltinOp {
    /// The number of arguments that the operation takes.
    pub open spec fn arity(self) -> nat {
        match self {
            BuiltinOp::IntNeg => 1,
            BuiltinOp::ListSet | BuiltinOp::ListSetInPlace => 3,
            _ => 2,
        }
    }

    /// The number of arguments that the operation takes.
    pub fn expected_args(self) -> (n: usize)
        ensures
            n == self.arity(),
    {
        match self {
            BuiltinOp::IntNeg => 1,
            BuiltinOp::ListSet | BuiltinOp::ListSetInPlace => 3,
            _ => 2,
        }
    }
}

} // verus!

//! The expressions that are lowered: a tree, with its layouts worked out.

use crate::layout::Layout;
use crate::symbol::Symbol;
use vstd::prelude::*;

verus! {

/// An expression whose types were made concrete and whose layouts are known.
#[derive(Debug)]
pub enum Expr {
    /// A 64-bit integer literal.
    Int(i64),
    /// A 64-bit floating-point literal, given by its bits.
    Float(u64),
    /// A string literal.
    Str(String),
    /// A boolean literal.
    Bool(bool),
    /// A byte literal.
    Byte(u8),
    /// The value of a binding.
    Load(Symbol),
    /// A sequence of bindings, each visible to those after it and to the body.
    Store(Vec<(Symbol, Layout, Expr)>, Box<Expr>),
    /// The address of a declared function.
    FunctionPointer(Symbol),
    /// A call of a built-in operation or of a declared function.
    CallByName(Symbol, Vec<(Expr, Layout)>),
    /// A call through an address; the layout is that of the function pointer.
    CallByPointer(Box<Expr>, Vec<Expr>, Layout),
    /// A choice between two expressions.
    Cond { cond: Box<Expr>, cond_layout: Layout, pass: Box<Expr>, fail: Box<Expr>, ret_layout: Layout },
    /// A choice among expressions by the value of an integer.
    Switch {
        cond: Box<Expr>,
        cond_layout: Layout,
        branches: Vec<(u64, Expr)>,
        default_branch: Box<Expr>,
        ret_layout: Layout,
    },
    /// A record.
    Struct { layout: Layout, fields: Vec<(String, Expr)> },
    /// An array literal.
    Array { elem_layout: Layout, elems: Vec<Expr> },
}

/// A function definition: its parameters in order, its body, and the layout
/// of what it returns.
#[derive(Debug)]
pub struct Proc {
    pub args: Vec<(Layout, Symbol)>,
    pub body: Expr,
    pub ret_layout: Layout,
}

} // verus!

//! The bindings that are visible at one point of a procedure.
//!
//! A scope is never changed in place. Extending one yields a new scope that
//! shares all earlier bindings with the scope it was made from, so whoever
//! holds the earlier scope keeps seeing exactly the earlier bindings.

use crate::ir::{FuncId, Signature, StackSlot, Type, Value};
use crate::symbol::Symbol;
use std::rc::Rc;
use vstd::prelude::*;

verus! {

/// Where the value of a binding lives.
#[derive(Debug)]
pub enum ScopeEntry {
    /// In a slot of the frame.
    Stack { expr_type: Type, slot: StackSlot },
    /// In memory, at the address that `ptr` holds.
    Heap { expr_type: Type, ptr: Value },
    /// In the value of an incoming parameter.
    Arg { expr_type: Type, param: Value },
    /// The binding is a function that was declared, and maybe not yet defined.
    Func { sig: Signature, func_id: FuncId },
}

#[derive(Debug)]
struct ScopeNode {
    symbol: Symbol,
    entry: ScopeEntry,
    rest: Option<Rc<ScopeNode>>,
}

/// An immutable mapping from symbols to where their values live.
#[derive(Debug)]
pub struct Scope {
    head: Option<Rc<ScopeNode>>,
}

spec fn bindings(node: Option<Rc<ScopeNode>>) -> Map<Symbol, ScopeEntry>
    decreases node,
{
    match node {
        None => Map::empty(),
        Some(n) => bindings(n.rest).insert(n.symbol, n.entry),
    }
}

/// `Rc::clone`: another pointer to the same allocation, hence to an equal
/// value.
#[verifier::external_body]
fn share(node: &Rc<ScopeNode>) -> (other: Rc<ScopeNode>)
    ensures
        other == *node,
{
    node.clone()
}

fn find<'a>(node: &'a Option<Rc<ScopeNode>>, symbol: Symbol) -> (found: Option<&'a ScopeEntry>)
    ensures
        match found {
            Some(entry) => bindings(*node).contains_key(symbol) && bindings(*node)[symbol]
                == *entry,
            None => !bindings(*node).contains_key(symbol),
        },
    decreases *node,
{
    match node {
        None => None,
        Some(n) => {
            if n.symbol == symbol {
                Some(&n.entry)
            } else {
                find(&n.rest, symbol)
            }
        },
    }
}

impl View for Scope {
    type V = Map<Symbol, ScopeEntry>;

    closed spec fn view(&self) -> Map<Symbol, ScopeEntry> {
        bindings(self.head)
    }
}

impl Scope {
    /// The scope without bindings.
    pub fn new() -> (scope: Scope)
        ensures
            scope@ == Map::<Symbol, ScopeEntry>::empty(),
    {
        Scope { head: None }
    }

    /// A new scope in which `symbol` resolves to `entry` and every other
    /// symbol resolves as in `self`, which is left as it was.
    pub fn extend(&self, symbol: Symbol, entry: ScopeEntry) -> (scope: Scope)
        ensures
            scope@ == self@.insert(symbol, entry),
    {
        let rest = match &self.head {
            None => None,
            Some(n) => Some(share(n)),
        };
        Scope { head: Some(Rc::new(ScopeNode { symbol, entry, rest })) }
    }

    /// What `symbol` resolves to, if it is bound.
    pub fn lookup(&self, symbol: Symbol) -> (found: Option<&ScopeEntry>)
        ensures
            match found {
                Some(entry) => self@.contains_key(symbol) && self@[symbol] == *entry,
                None => !self@.contains_key(symbol),
            },
    {
        find(&self.head, symbol)
    }

    /// Another handle on the same bindings.
    pub fn share(&self) -> (scope: Scope)
        ensures
            scope@ == self@,
    {
        let head = match &self.head {
            None => None,
            Some(n) => Some(share(n)),
        };
        Scope { head }
    }
}

} // verus!

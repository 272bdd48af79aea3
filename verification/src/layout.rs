//! The runtime shape of values, and what the target makes of it.

use crate::ir::{CallConv, Signature, SignatureView, Type};
use vstd::prelude::*;

verus! {

/// The shape of a value of a built-in type.
#[derive(Debug)]
pub enum Builtin {
    Int64,
    Float64,
    Bool,
    Byte,
    Str,
    List(Box<Layout>),
}

/// The shape of a value at run time.
#[derive(Debug)]
pub enum Layout {
    Builtin(Builtin),
    /// A record: its fields by name, each with its own layout.
    Struct(Vec<(String, Layout)>),
    /// A pointer to a function with these arguments and this result.
    FunctionPointer(Vec<Layout>, Box<Layout>),
}

/// The width of an address of the target.
#[derive(Clone, Copy, Debug, PartialEq, Eq, Structural)]
pub enum PointerWidth {
    U16,
    U32,
    U64,
}

/// What the lowering needs to know of the target.
#[derive(Clone, Copy, Debug, PartialEq, Eq, Structural)]
pub struct TargetConfig {
    pub default_call_conv: CallConv,
    pub pointer_width: PointerWidth,
}

impl TargetConfig {
    /// The size of an address in bytes.
    pub open spec fn pointer_size(self) -> nat {
        match self.pointer_width {
            PointerWidth::U16 => 2,
            PointerWidth::U32 => 4,
            PointerWidth::U64 => 8,
        }
    }

    /// The machine type of an address. The narrowest machine type with
    /// arithmetic is `I32`, which also holds the addresses of a 16-bit target.
    pub open spec fn pointer_ty(self) -> Type {
        match self.pointer_width {
            PointerWidth::U16 => Type::I32,
            PointerWidth::U32 => Type::I32,
            PointerWidth::U64 => Type::I64,
        }
    }

    /// The size of an address in bytes.
    pub fn pointer_bytes(&self) -> (n: u8)
        ensures
            n == self.pointer_size(),
    {
        match self.pointer_width {
            PointerWidth::U16 => 2,
            PointerWidth::U32 => 4,
            PointerWidth::U64 => 8,
        }
    }

    /// The machine type of an address.
    pub fn pointer_type(&self) -> (ty: Type)
        ensures
            ty == self.pointer_ty(),
    {
        match self.pointer_width {
            PointerWidth::U16 => Type::I32,
            PointerWidth::U32 => Type::I32,
            PointerWidth::U64 => Type::I64,
        }
    }
}

/// The sum of the sizes of the first `n` fields.
pub open spec fn fields_size(fields: Vec<(String, Layout)>, n: nat, pointer_size: nat) -> nat
    decreases fields, n,
{
    if n == 0 || n > fields@.len() {
        0
    } else {
        fields_size(fields, (n - 1) as nat, pointer_size) + fields@[n - 1].1.size(pointer_size)
    }
}

impl Layout {
    /// The number of bytes that a value of this layout takes in a frame, on a
    /// target whose addresses take `pointer_size` bytes.
    pub open spec fn size(self, pointer_size: nat) -> nat
        decreases self,
    {
        match self {
            Layout::Builtin(Builtin::Int64) => 8,
            Layout::Builtin(Builtin::Float64) => 8,
            Layout::Builtin(Builtin::Bool) => 1,
            Layout::Builtin(Builtin::Byte) => 1,
            Layout::Builtin(Builtin::Str) => pointer_size,
            Layout::Builtin(Builtin::List(_)) => pointer_size,
            Layout::Struct(fields) => fields_size(fields, fields@.len(), pointer_size),
            Layout::FunctionPointer(_, _) => pointer_size,
        }
    }

    /// The machine type that holds a value of this layout.
    pub open spec fn machine_type(self, cfg: TargetConfig) -> Type {
        match self {
            Layout::Builtin(Builtin::Int64) => Type::I64,
            Layout::Builtin(Builtin::Float64) => Type::F64,
            Layout::Builtin(Builtin::Bool) => Type::B1,
            Layout::Builtin(Builtin::Byte) => Type::I8,
            Layout::Builtin(Builtin::Str) => cfg.pointer_ty(),
            Layout::Builtin(Builtin::List(_)) => cfg.pointer_ty(),
            Layout::Struct(_) => cfg.pointer_ty(),
            Layout::FunctionPointer(_, _) => cfg.pointer_ty(),
        }
    }

    /// The number of bytes that a value of this layout takes in a frame, or
    /// `None` when that number does not fit in 32 bits.
    pub fn stack_size(&self, pointer_bytes: u32) -> (size: Option<u32>)
        ensures
            match size {
                Some(n) => n == self.size(pointer_bytes as nat),
                None => self.size(pointer_bytes as nat) > u32::MAX,
            },
        decreases self,
    {
        match self {
            Layout::Builtin(Builtin::Int64) => Some(8),
            Layout::Builtin(Builtin::Float64) => Some(8),
            Layout::Builtin(Builtin::Bool) => Some(1),
            Layout::Builtin(Builtin::Byte) => Some(1),
            Layout::Builtin(Builtin::Str) => Some(pointer_bytes),
            Layout::Builtin(Builtin::List(_)) => Some(pointer_bytes),
            Layout::FunctionPointer(_, _) => Some(pointer_bytes),
            Layout::Struct(fields) => {
                let mut total: u32 = 0;
                let mut i: usize = 0;
                while i < fields.len()
                    invariant
                        i <= fields@.len(),
                        total == fields_size(*fields, i as nat, pointer_bytes as nat),
                        *self == Layout::Struct(*fields),
                    decreases fields@.len() - i,
                {
                    proof {
                        lemma_fields_size_grows(
                            *fields,
                            (i + 1) as nat,
                            fields@.len(),
                            pointer_bytes as nat,
                        );
                        vstd::std_specs::vec::axiom_vec_index_decreases(*fields, i as int);
                        assert(decreases_to!(*self => self->Struct_0));
                    }
                    match fields[i].1.stack_size(pointer_bytes) {
                        Some(n) => {
                            if n > u32::MAX - total {
                                return None;
                            }
                            total = total + n;
                        },
                        None => {
                            return None;
                        },
                    }
                    i = i + 1;
                }
                Some(total)
            },
        }
    }

    /// The machine type that holds a value of this layout.
    pub fn type_from_layout(&self, cfg: TargetConfig) -> (ty: Type)
        ensures
            ty == self.machine_type(cfg),
    {
        match self {
            Layout::Builtin(Builtin::Int64) => Type::I64,
            Layout::Builtin(Builtin::Float64) => Type::F64,
            Layout::Builtin(Builtin::Bool) => Type::B1,
            Layout::Builtin(Builtin::Byte) => Type::I8,
            _ => cfg.pointer_type(),
        }
    }
}

/// The size of the first fields never exceeds the size of more of them.
pub proof fn lemma_fields_size_grows(
    fields: Vec<(String, Layout)>,
    n: nat,
    m: nat,
    pointer_size: nat,
)
    requires
        n <= m <= fields@.len(),
    ensures
        fields_size(fields, n, pointer_size) <= fields_size(fields, m, pointer_size),
    decreases m,
{
    if n < m {
        lemma_fields_size_grows(fields, n, (m - 1) as nat, pointer_size);
    }
}

/// The machine types of a list of layouts.
pub open spec fn machine_types(layouts: Seq<Layout>, cfg: TargetConfig) -> Seq<Type> {
    Seq::new(layouts.len(), |i: int| layouts[i].machine_type(cfg))
}

/// The signature of the functions that a function pointer of this layout
/// points to: `None` for a layout of another kind.
pub open spec fn signature_of(layout: Layout, cfg: TargetConfig) -> Option<SignatureView> {
    match layout {
        Layout::FunctionPointer(args, ret) => Some(
            SignatureView {
                params: machine_types(args@, cfg),
                returns: seq![ret.machine_type(cfg)],
                call_conv: cfg.default_call_conv,
            },
        ),
        _ => None,
    }
}

/// Builds the signature of the functions that a function pointer of this
/// layout points to.
pub fn sig_from_layout(cfg: TargetConfig, layout: &Layout) -> (sig: Option<Signature>)
    ensures
        match sig {
            Some(s) => signature_of(*layout, cfg) == Some(s@),
            None => signature_of(*layout, cfg) is None,
        },
{
    match layout {
        Layout::FunctionPointer(args, ret) => {
            let mut params: Vec<Type> = Vec::new();
            let mut i: usize = 0;
            while i < args.len()
                invariant
                    i <= args@.len(),
                    params@ == machine_types(args@, cfg).take(i as int),
                decreases args@.len() - i,
            {
                params.push(args[i].type_from_layout(cfg));
                assert(machine_types(args@, cfg).take(i + 1) == machine_types(args@, cfg).take(
                    i as int,
                ).push(args@[i as int].machine_type(cfg)));
                i = i + 1;
            }
            assert(machine_types(args@, cfg).take(args@.len() as int) == machine_types(args@, cfg));
            let mut results: Vec<Type> = Vec::new();
            results.push(ret.type_from_layout(cfg));
            assert(results@ == seq![ret.machine_type(cfg)]);
            Some(Signature { params, returns: results, call_conv: cfg.default_call_conv })
        },
        _ => None,
    }
}

} // verus!

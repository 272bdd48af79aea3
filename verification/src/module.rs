//! The functions of one compilation unit.
//!
//! A function is declared under a name, with a signature, and gets a number.
//! It is defined at most once, by handing over a finished body. Exactly one
//! procedure is built at a time, and the one who builds it owns the module.

use crate::builder::Body;
use crate::fields::{name_bytes, name_eq};
use crate::ir::{FuncId, Function, Signature, SignatureView, Type};
use crate::layout::TargetConfig;
use crate::machine::Program;
use crate::symbol::Symbol;
use vstd::prelude::*;
use vstd::string::StringSliceAdditionalSpecFns;

verus! {

/// How a function is seen from outside of the module.
#[derive(Clone, Copy, Debug, PartialEq, Eq, Structural)]
pub enum Linkage {
    /// Defined elsewhere.
    Import,
    /// Defined here, and not seen from outside.
    Local,
    /// Defined here, and seen from outside.
    Export,
}

impl Linkage {
    /// The linkage of a function that was declared with `self` and is
    /// declared again with `other`.
    pub open spec fn merged(self, other: Linkage) -> Linkage {
        match self {
            Linkage::Export => Linkage::Export,
            Linkage::Local => match other {
                Linkage::Export => Linkage::Export,
                _ => Linkage::Local,
            },
            Linkage::Import => other,
        }
    }

    /// The linkage of a function that was declared with `self` and is
    /// declared again with `other`.
    pub fn merge(self, other: Linkage) -> (linkage: Linkage)
        ensures
            linkage == self.merged(other),
    {
        match self {
            Linkage::Export => Linkage::Export,
            Linkage::Local => match other {
                Linkage::Export => Linkage::Export,
                _ => Linkage::Local,
            },
            Linkage::Import => other,
        }
    }
}

/// Why the module refuses a declaration or a definition.
#[derive(Clone, Copy, Debug, PartialEq, Eq, Structural)]
pub enum ModuleError {
    /// The name was declared before, with another signature.
    IncompatibleSignature,
    /// The function was defined before.
    DuplicateDefinition,
    /// The function was declared as defined elsewhere.
    InvalidImportDefinition,
}

/// A function of the module.
#[derive(Debug)]
pub struct Declaration {
    pub name: String,
    pub linkage: Linkage,
    pub signature: Signature,
    pub body: Option<Function>,
}

/// A function of the module as a mathematical value.
pub struct DeclarationView {
    pub name: Seq<u8>,
    pub linkage: Linkage,
    pub signature: SignatureView,
    pub body: Option<Body>,
}

impl View for Declaration {
    type V = DeclarationView;

    open spec fn view(&self) -> DeclarationView {
        DeclarationView {
            name: name_bytes(self.name),
            linkage: self.linkage,
            signature: self.signature@,
            body: match self.body {
                Some(function) => Some(function.body()),
                None => None,
            },
        }
    }
}

/// The functions of one compilation unit.
#[derive(Debug)]
pub struct Module {
    cfg: TargetConfig,
    functions: Vec<Declaration>,
}

/// The number of the first of `decls` from `from` on that has the name
/// `name`.
pub open spec fn find_name(decls: Seq<DeclarationView>, name: Seq<u8>, from: int) -> Option<int>
    decreases decls.len() - from,
{
    if from < 0 || from >= decls.len() {
        None
    } else if decls[from].name == name {
        Some(from)
    } else {
        find_name(decls, name, from + 1)
    }
}

/// What declaring a function makes of the declarations: the name gets the
/// number it had, or the next number.
pub open spec fn declared(
    decls: Seq<DeclarationView>,
    name: Seq<u8>,
    linkage: Linkage,
    sig: SignatureView,
) -> Result<(Seq<DeclarationView>, FuncId), ModuleError> {
    match find_name(decls, name, 0) {
        Some(i) => {
            if decls[i].signature == sig {
                Ok(
                    (
                        decls.update(
                            i,
                            DeclarationView { linkage: decls[i].linkage.merged(linkage), ..decls[i] },
                        ),
                        FuncId { index: i as usize },
                    ),
                )
            } else {
                Err(ModuleError::IncompatibleSignature)
            }
        },
        None => Ok(
            (
                decls.push(DeclarationView { name, linkage, signature: sig, body: None }),
                FuncId { index: decls.len() as usize },
            ),
        ),
    }
}

/// What defining the function `id` makes of the declarations.
pub open spec fn defined(decls: Seq<DeclarationView>, id: FuncId, body: Body) -> Result<
    Seq<DeclarationView>,
    ModuleError,
> {
    let decl = decls[id.index as int];
    if decl.linkage == Linkage::Import {
        Err(ModuleError::InvalidImportDefinition)
    } else if decl.body is Some {
        Err(ModuleError::DuplicateDefinition)
    } else {
        Ok(decls.update(id.index as int, DeclarationView { body: Some(body), ..decl }))
    }
}

/// Whether two lists of types are the same.
fn types_eq(a: &Vec<Type>, b: &Vec<Type>) -> (eq: bool)
    ensures
        eq == (a@ == b@),
{
    if a.len() != b.len() {
        return false;
    }
    let mut i: usize = 0;
    while i < a.len()
        invariant
            i <= a@.len(),
            a@.len() == b@.len(),
            a@.take(i as int) == b@.take(i as int),
        decreases a@.len() - i,
    {
        if a[i] != b[i] {
            return false;
        }
        assert(a@.take(i + 1) == a@.take(i as int).push(a@[i as int]));
        assert(b@.take(i + 1) == b@.take(i as int).push(b@[i as int]));
        i = i + 1;
    }
    assert(a@.take(a@.len() as int) == a@);
    assert(b@.take(b@.len() as int) == b@);
    true
}

/// Whether two signatures are the same.
pub fn signature_eq(a: &Signature, b: &Signature) -> (eq: bool)
    ensures
        eq == (a@ == b@),
{
    a.call_conv == b.call_conv && types_eq(&a.params, &b.params) && types_eq(&a.returns, &b.returns)
}

impl Module {
    /// The declarations of the module, by number.
    pub closed spec fn declarations(&self) -> Seq<DeclarationView> {
        Seq::new(self.functions@.len(), |i: int| self.functions@[i]@)
    }

    /// The target that the module is built for.
    pub closed spec fn target(&self) -> TargetConfig {
        self.cfg
    }

    /// The program that the module holds: the bodies of its functions.
    pub open spec fn program(&self) -> Program {
        Program {
            funcs: Seq::new(
                self.declarations().len(),
                |i: int| self.declarations()[i].body,
            ),
        }
    }

    /// A module without functions.
    pub fn new(cfg: TargetConfig) -> (module: Module)
        ensures
            module.declarations() == Seq::<DeclarationView>::empty(),
            module.target() == cfg,
    {
        let module = Module { cfg, functions: Vec::new() };
        assert(module.declarations() == Seq::<DeclarationView>::empty());
        module
    }

    /// The configuration of the target.
    pub fn target_config(&self) -> (cfg: TargetConfig)
        ensures
            cfg == self.target(),
    {
        self.cfg
    }

    /// A signature without parameters and results, in the calling convention
    /// of the target.
    pub fn make_signature(&self) -> (sig: Signature)
        ensures
            sig@ == (SignatureView {
                params: Seq::empty(),
                returns: Seq::empty(),
                call_conv: self.target().default_call_conv,
            }),
    {
        Signature { params: Vec::new(), returns: Vec::new(), call_conv: self.cfg.default_call_conv }
    }

    /// The number of functions declared.
    pub fn len(&self) -> (n: usize)
        ensures
            n == self.declarations().len(),
    {
        self.functions.len()
    }

    /// The declaration of the function `id`.
    pub fn declaration(&self, id: FuncId) -> (decl: Option<&Declaration>)
        ensures
            match decl {
                Some(d) => id.index < self.declarations().len() && d@
                    == self.declarations()[id.index as int],
                None => id.index >= self.declarations().len(),
            },
    {
        if id.index < self.functions.len() {
            Some(&self.functions[id.index])
        } else {
            None
        }
    }

    /// Declares a function. A name that was declared before keeps its number,
    /// and must be declared with the signature it has.
    pub fn declare_function(&mut self, name: &str, linkage: Linkage, sig: &Signature) -> (res:
        Result<FuncId, ModuleError>)
        ensures
            final(self).target() == old(self).target(),
            match res {
                Ok(id) => declared(old(self).declarations(), name.spec_bytes(), linkage, sig@) == Ok::<
                    (Seq<DeclarationView>, FuncId),
                    ModuleError,
                >((final(self).declarations(), id)),
                Err(e) => declared(old(self).declarations(), name.spec_bytes(), linkage, sig@)
                    == Err::<(Seq<DeclarationView>, FuncId), ModuleError>(e)
                    && final(self).declarations() == old(self).declarations(),
            },
    {
        let mut i: usize = 0;
        while i < self.functions.len()
            invariant
                i <= self.functions@.len(),
                *self == *old(self),
                find_name(self.declarations(), name.spec_bytes(), 0) == find_name(
                    self.declarations(),
                    name.spec_bytes(),
                    i as int,
                ),
            decreases self.functions@.len() - i,
        {
            if name_eq(self.functions[i].name.as_str(), name) {
                if signature_eq(&self.functions[i].signature, sig) {
                    let merged = self.functions[i].linkage.merge(linkage);
                    self.functions[i].linkage = merged;
                    assert(self.declarations() == old(self).declarations().update(
                        i as int,
                        DeclarationView {
                            linkage: old(self).declarations()[i as int].linkage.merged(linkage),
                            ..old(self).declarations()[i as int]
                        },
                    ));
                    return Ok(FuncId { index: i });
                } else {
                    return Err(ModuleError::IncompatibleSignature);
                }
            }
            i = i + 1;
        }
        let id = FuncId { index: self.functions.len() };
        self.functions.push(
            Declaration { name: name.to_owned(), linkage, signature: sig.clone(), body: None },
        );
        assert(self.declarations() == old(self).declarations().push(
            DeclarationView { name: name.spec_bytes(), linkage, signature: sig@, body: None },
        ));
        Ok(id)
    }

    /// Defines the function `id`, which must have been declared.
    pub fn define_function(&mut self, id: FuncId, function: Function) -> (res: Result<
        (),
        ModuleError,
    >)
        requires
            id.index < old(self).declarations().len(),
        ensures
            final(self).target() == old(self).target(),
            match res {
                Ok(_) => defined(old(self).declarations(), id, function.body()) == Ok::<
                    Seq<DeclarationView>,
                    ModuleError,
                >(final(self).declarations()),
                Err(e) => defined(old(self).declarations(), id, function.body()) == Err::<
                    Seq<DeclarationView>,
                    ModuleError,
                >(e) && final(self).declarations() == old(self).declarations(),
            },
    {
        if self.functions[id.index].linkage == Linkage::Import {
            return Err(ModuleError::InvalidImportDefinition);
        }
        if self.functions[id.index].body.is_some() {
            return Err(ModuleError::DuplicateDefinition);
        }
        self.functions[id.index].body = Some(function);
        assert(self.declarations() == old(self).declarations().update(
            id.index as int,
            DeclarationView { body: Some(function.body()), ..old(self).declarations()[id.index as int] },
        ));
        Ok(())
    }
}

/// The names that symbols are shown and registered under.
#[derive(Debug)]
pub struct Interns {
    pub names: Vec<(Symbol, String)>,
}

/// The name of the first of `names` from `from` on that belongs to `symbol`.
pub open spec fn interned(names: Seq<(Symbol, String)>, symbol: Symbol, from: int) -> Option<
    Seq<u8>,
>
    decreases names.len() - from,
{
    if from < 0 || from >= names.len() {
        None
    } else if names[from].0 == symbol {
        Some(name_bytes(names[from].1))
    } else {
        interned(names, symbol, from + 1)
    }
}

impl Interns {
    /// The name of `symbol`, if it has one.
    pub open spec fn name_of(&self, symbol: Symbol) -> Option<Seq<u8>> {
        interned(self.names@, symbol, 0)
    }

    /// The name of `symbol`, if it has one.
    pub fn ident_string(&self, symbol: Symbol) -> (name: Option<&str>)
        ensures
            match name {
                Some(text) => self.name_of(symbol) == Some(text.spec_bytes()),
                None => self.name_of(symbol) is None,
            },
    {
        let mut i: usize = 0;
        while i < self.names.len()
            invariant
                i <= self.names@.len(),
                interned(self.names@, symbol, 0) == interned(self.names@, symbol, i as int),
            decreases self.names@.len() - i,
        {
            if self.names[i].0 == symbol {
                return Some(self.names[i].1.as_str());
            }
            i = i + 1;
        }
        None
    }
}

} // verus!

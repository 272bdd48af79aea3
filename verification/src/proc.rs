//! Building procedures: declaring a function for one, and defining it.

use crate::builder::{Body, FunctionBuilder};
use crate::expr::Proc;
use crate::growth::lemma_expr_grows;
use crate::ir::{Block, FuncId, Inst, Signature, SignatureView, Type, Value};
use crate::laws::{defines, lemma_defined_in_module, only_functions};
use crate::layout::{Layout, TargetConfig};
use crate::lower::{build_expr, Env};
use crate::lowered::{Context, lower_expr, LowerError};
use crate::module::{DeclarationView, declared, defined, Linkage, Module, ModuleError};
use crate::scope::{Scope, ScopeEntry};
use crate::symbol::Symbol;
use vstd::prelude::*;

verus! {

/// The machine types of the first `n` parameters of a procedure.
pub open spec fn param_types(args: Seq<(Layout, Symbol)>, cfg: TargetConfig) -> Seq<Type> {
    Seq::new(args.len(), |i: int| args[i].0.machine_type(cfg))
}

/// The signature of the function of a procedure: the type of what it
/// returns, and the types of its parameters in order.
pub open spec fn proc_signature(cfg: TargetConfig, call_conv: crate::ir::CallConv, proc: Proc)
    -> SignatureView {
    SignatureView {
        params: param_types(proc.args@, cfg),
        returns: seq![proc.ret_layout.machine_type(cfg)],
        call_conv,
    }
}

/// Declares the function of `proc` in `module`, under the name of `symbol`,
/// and returns its number and its signature. Fails when the symbol has no
/// name, and when the name was declared before with another signature.
pub fn declare_proc(env: &Env, module: &mut Module, symbol: Symbol, proc: &Proc) -> (res: Result<
    (FuncId, Signature),
    LowerError,
>)
    ensures
        final(module).target() == old(module).target(),
        match env.interns.name_of(symbol) {
            None => res == Err::<(FuncId, Signature), LowerError>(
                LowerError::UnresolvedSymbol(symbol),
            ) && final(module).declarations() == old(module).declarations(),
            Some(name) => match declared(
                old(module).declarations(),
                name,
                Linkage::Local,
                proc_signature(env.cfg, old(module).target().default_call_conv, *proc),
            ) {
                Err(_) => res == Err::<(FuncId, Signature), LowerError>(
                    LowerError::Collision(symbol),
                ) && final(module).declarations() == old(module).declarations(),
                Ok((decls, id)) => res matches Ok((fn_id, sig)) && fn_id == id && sig@
                    == proc_signature(env.cfg, old(module).target().default_call_conv, *proc)
                    && final(module).declarations() == decls,
            },
        },
{
    let cfg = env.cfg;
    let ret_type = proc.ret_layout.type_from_layout(cfg);
    let mut sig = module.make_signature();
    sig.returns.push(ret_type);
    let mut i: usize = 0;
    while i < proc.args.len()
        invariant
            i <= proc.args@.len(),
            sig.returns@ == seq![proc.ret_layout.machine_type(cfg)],
            sig.call_conv == module.target().default_call_conv,
            sig.params@ == param_types(proc.args@, cfg).take(i as int),
        decreases proc.args@.len() - i,
    {
        let arg_type = proc.args[i].0.type_from_layout(cfg);
        sig.params.push(arg_type);
        assert(param_types(proc.args@, cfg).take(i + 1) == param_types(proc.args@, cfg).take(
            i as int,
        ).push(arg_type));
        i = i + 1;
    }
    assert(param_types(proc.args@, cfg).take(proc.args@.len() as int) == param_types(
        proc.args@,
        cfg,
    ));
    let name = match env.interns.ident_string(symbol) {
        Some(name) => name,
        None => {
            return Err(LowerError::UnresolvedSymbol(symbol));
        },
    };
    match module.declare_function(name, Linkage::Local, &sig) {
        Ok(fn_id) => Ok((fn_id, sig)),
        Err(_) => Err(LowerError::Collision(symbol)),
    }
}

/// The scope in which the body of a procedure is lowered: that of its
/// surroundings, and each parameter bound to the value that comes in for it.
pub open spec fn with_params(
    scope: Map<Symbol, ScopeEntry>,
    args: Seq<(Layout, Symbol)>,
    cfg: TargetConfig,
    n: nat,
) -> Map<Symbol, ScopeEntry>
    decreases n,
{
    if n == 0 || n > args.len() {
        scope
    } else {
        with_params(scope, args, cfg, (n - 1) as nat).insert(
            args[n - 1].1,
            ScopeEntry::Arg {
                expr_type: args[n - 1].0.machine_type(cfg),
                param: Value { index: (n - 1) as usize },
            },
        )
    }
}

/// The number of parameters that get bound: those for which a value comes
/// in.
pub open spec fn bound_params(sig: SignatureView, proc: Proc) -> nat {
    if sig.params.len() <= proc.args@.len() {
        sig.params.len()
    } else {
        proc.args@.len()
    }
}

/// The body before anything of the procedure is lowered: one block, which
/// is being filled, and the parameters as the first values.
pub open spec fn entry_body(sig: SignatureView) -> Body {
    Body {
        value_types: sig.params,
        params: sig.params.len(),
        ..Body::empty().with_block().at_block(Block { index: 0 })
    }
}

/// What lowering a procedure under the signature `sig` comes to: the body
/// of its function.
pub open spec fn lower_proc(cx: Context, scope: Map<Symbol, ScopeEntry>, sig: SignatureView, proc: Proc)
    -> Result<Body, LowerError> {
    match lower_expr(
        cx,
        with_params(scope, proc.args@, cx.cfg, bound_params(sig, proc)),
        entry_body(sig),
        proc.body,
    ) {
        Err(e) => Err(e),
        Ok((st, value)) => Ok(Body { sealed: true, ..st.with_inst(Inst::Return { value }) }),
    }
}

/// Builds the body of the function `fn_id` from `proc` and hands it to
/// `module`: one entry block, each parameter bound to the value that comes
/// in for it, the body of the procedure, and the return of its value. All
/// blocks are sealed at the end. The function must have been declared as
/// one that is defined here, and must not have been defined yet.
pub fn define_proc_body(
    env: &Env,
    module: &mut Module,
    fn_id: FuncId,
    scope: &Scope,
    sig: Signature,
    proc: Proc,
) -> (res: Result<(), LowerError>)
    requires
        fn_id.index < old(module).declarations().len(),
        old(module).declarations()[fn_id.index as int].linkage != Linkage::Import,
        old(module).declarations()[fn_id.index as int].body is None,
    ensures
        final(module).target() == old(module).target(),
        match lower_proc(env.context(), scope@, sig@, proc) {
            Err(e) => res == Err::<(), LowerError>(e) && final(module).declarations() == old(
                module,
            ).declarations(),
            Ok(body) => res is Ok && defined(old(module).declarations(), fn_id, body) == Ok::<
                Seq<DeclarationView>,
                ModuleError,
            >(final(module).declarations()),
        },
        res is Ok && only_functions(scope@) && fn_id != env.malloc ==> defines(
            env.context(),
            scope@,
            sig@,
            proc,
            final(module).program(),
            fn_id,
        ),
{
    let ghost cx = env.context();
    let ghost sig_view = sig@;
    let mut builder = FunctionBuilder::new(sig);
    let block = builder.create_block();
    builder.switch_to_block(block);
    let params = builder.append_block_params_for_function_params();
    assert(builder@ == entry_body(sig_view));
    let mut inner = scope.share();
    let mut i: usize = 0;
    while i < params.len() && i < proc.args.len()
        invariant
            i <= params@.len(),
            i <= proc.args@.len(),
            params@.len() == sig_view.params.len(),
            forall|j: int| 0 <= j < params@.len() ==> (#[trigger] params@[j]).index == j,
            inner@ == with_params(scope@, proc.args@, env.cfg, i as nat),
        decreases params@.len() - i,
    {
        let expr_type = proc.args[i].0.type_from_layout(env.cfg);
        inner = inner.extend(proc.args[i].1, ScopeEntry::Arg { expr_type, param: params[i] });
        i = i + 1;
    }
    assert(i == bound_params(sig_view, proc));
    let ghost st = builder@;
    let body = match build_expr(env, &inner, &mut builder, &proc.body) {
        Ok(body) => body,
        Err(e) => {
            return Err(e);
        },
    };
    proof {
        lemma_expr_grows(cx, inner@, st, proc.body);
    }
    builder.emit(Inst::Return { value: body });
    builder.seal_all_blocks();
    proof {
        builder.lemma_fits();
    }
    let function = builder.finalize();
    let ghost before = *module;
    match module.define_function(fn_id, function) {
        Ok(_) => {
            proof {
                if only_functions(scope@) && fn_id != env.malloc {
                    lemma_defined_in_module(cx, scope@, sig_view, proc, before, *module, fn_id);
                }
            }
            Ok(())
        },
        Err(_) => {
            proof {
                assert(false);
            }
            Ok(())
        },
    }
}

} // verus!

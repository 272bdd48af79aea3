//! Building one function body, instruction by instruction.
//!
//! The builder works in two phases. While the body is built, blocks are
//! created, switched to and filled, and no block is sealed. When every block
//! is filled, all blocks are sealed at once and the body is finished.

use crate::ir::{
    Block, copy_types, FuncId, FuncRef, Function, Inst, PoolRange, Signature, SignatureView,
    SigRef, StackSlot, Type, Value, Variable,
};
use vstd::prelude::*;

verus! {

/// The signatures of a list as mathematical values.
pub open spec fn signature_views(sigs: Seq<Signature>) -> Seq<SignatureView> {
    Seq::new(sigs.len(), |i: int| sigs[i]@)
}

/// A function body under construction, or finished, as a mathematical value.
pub struct Body {
    /// The instructions emitted so far.
    pub insts: Seq<Inst>,
    /// For each block created, where its run of instructions starts, once the
    /// builder switched to it.
    pub block_starts: Seq<Option<usize>>,
    /// The type of each value defined so far.
    pub value_types: Seq<Type>,
    /// How many of the values are parameters of the function.
    pub params: nat,
    /// The size of each frame slot.
    pub stack_slots: Seq<u32>,
    /// The type of each variable.
    pub variables: Seq<Type>,
    /// The functions imported.
    pub func_refs: Seq<FuncId>,
    /// The signatures imported.
    pub sig_refs: Seq<SignatureView>,
    /// The operands of the calls.
    pub value_pool: Seq<Value>,
    /// The cases of the switches.
    pub case_pool: Seq<(u64, Block)>,
    /// Whether a block is being filled: instructions can be emitted.
    pub filling: bool,
    /// Whether the blocks were sealed.
    pub sealed: bool,
}

impl Body {
    /// The body of a function of which nothing was built yet.
    pub open spec fn empty() -> Body {
        Body {
            insts: Seq::empty(),
            block_starts: Seq::empty(),
            value_types: Seq::empty(),
            params: 0,
            stack_slots: Seq::empty(),
            variables: Seq::empty(),
            func_refs: Seq::empty(),
            sig_refs: Seq::empty(),
            value_pool: Seq::empty(),
            case_pool: Seq::empty(),
            filling: false,
            sealed: false,
        }
    }

    /// The next value that will be defined.
    pub open spec fn next_value(self) -> Value {
        Value { index: self.value_types.len() as usize }
    }

    /// The body after a value of type `ty` was defined.
    pub open spec fn with_value(self, ty: Type) -> Body {
        Body { value_types: self.value_types.push(ty), ..self }
    }

    /// The body after `inst` was emitted.
    pub open spec fn with_inst(self, inst: Inst) -> Body {
        Body {
            insts: self.insts.push(inst),
            filling: self.filling && !inst.is_terminator(),
            ..self
        }
    }

    /// The body after a block was created.
    pub open spec fn with_block(self) -> Body {
        Body { block_starts: self.block_starts.push(None), ..self }
    }

    /// The next block that will be created.
    pub open spec fn next_block(self) -> Block {
        Block { index: self.block_starts.len() as usize }
    }

    /// The body after the builder switched to `block`.
    pub open spec fn at_block(self, block: Block) -> Body {
        Body {
            block_starts: if block.index < self.block_starts.len() {
                self.block_starts.update(block.index as int, Some(self.insts.len() as usize))
            } else {
                self.block_starts
            },
            filling: true,
            ..self
        }
    }

    /// The body after a frame slot of `size` bytes was created.
    pub open spec fn with_slot(self, size: u32) -> Body {
        Body { stack_slots: self.stack_slots.push(size), ..self }
    }

    /// The next frame slot that will be created.
    pub open spec fn next_slot(self) -> StackSlot {
        StackSlot { index: self.stack_slots.len() as usize }
    }

    /// The body after a variable of type `ty` was declared.
    pub open spec fn with_variable(self, ty: Type) -> Body {
        Body { variables: self.variables.push(ty), ..self }
    }

    /// The next variable that will be declared.
    pub open spec fn next_variable(self) -> Variable {
        Variable { index: self.variables.len() as usize }
    }

    /// The body after `func` was imported.
    pub open spec fn with_func_ref(self, func: FuncId) -> Body {
        Body { func_refs: self.func_refs.push(func), ..self }
    }

    /// The next function reference that an import will give.
    pub open spec fn next_func_ref(self) -> FuncRef {
        FuncRef { index: self.func_refs.len() as usize }
    }

    /// The body after `sig` was imported.
    pub open spec fn with_sig_ref(self, sig: SignatureView) -> Body {
        Body { sig_refs: self.sig_refs.push(sig), ..self }
    }

    /// The next signature reference that an import will give.
    pub open spec fn next_sig_ref(self) -> SigRef {
        SigRef { index: self.sig_refs.len() as usize }
    }

    /// The body after `values` were added to the value pool.
    pub open spec fn with_values(self, values: Seq<Value>) -> Body {
        Body { value_pool: self.value_pool + values, ..self }
    }

    /// The range of the value pool that `values` will take when added.
    pub open spec fn next_values(self, values: Seq<Value>) -> PoolRange {
        PoolRange { start: self.value_pool.len() as usize, len: values.len() as usize }
    }

    /// The body after `cases` were added to the case pool.
    pub open spec fn with_cases(self, cases: Seq<(u64, Block)>) -> Body {
        Body { case_pool: self.case_pool + cases, ..self }
    }

    /// The range of the case pool that `cases` will take when added.
    pub open spec fn next_cases(self, cases: Seq<(u64, Block)>) -> PoolRange {
        PoolRange { start: self.case_pool.len() as usize, len: cases.len() as usize }
    }

    /// The body after a value of type `ty` was defined by the instruction that
    /// `make` gives for it.
    pub open spec fn with_def(self, ty: Type, make: spec_fn(Value) -> Inst) -> Body {
        self.with_value(ty).with_inst(make(self.next_value()))
    }
}

/// Builds the body of one function.
pub struct FunctionBuilder {
    signature: Signature,
    insts: Vec<Inst>,
    block_starts: Vec<Option<usize>>,
    value_types: Vec<Type>,
    params: usize,
    stack_slots: Vec<u32>,
    variables: Vec<Type>,
    func_refs: Vec<FuncId>,
    sig_refs: Vec<Signature>,
    value_pool: Vec<Value>,
    case_pool: Vec<(u64, Block)>,
    filling: bool,
    sealed: bool,
}

impl View for FunctionBuilder {
    type V = Body;

    closed spec fn view(&self) -> Body {
        Body {
            insts: self.insts@,
            block_starts: self.block_starts@,
            value_types: self.value_types@,
            params: self.params as nat,
            stack_slots: self.stack_slots@,
            variables: self.variables@,
            func_refs: self.func_refs@,
            sig_refs: signature_views(self.sig_refs@),
            value_pool: self.value_pool@,
            case_pool: self.case_pool@,
            filling: self.filling,
            sealed: self.sealed,
        }
    }
}

impl FunctionBuilder {
    /// The signature of the function that is built.
    pub closed spec fn signature(&self) -> SignatureView {
        self.signature@
    }

    /// A builder for a function with this signature, with nothing built yet.
    pub fn new(signature: Signature) -> (builder: FunctionBuilder)
        ensures
            builder@ == Body::empty(),
            builder.signature() == signature@,
    {
        let builder = FunctionBuilder {
            signature,
            insts: Vec::new(),
            block_starts: Vec::new(),
            value_types: Vec::new(),
            params: 0,
            stack_slots: Vec::new(),
            variables: Vec::new(),
            func_refs: Vec::new(),
            sig_refs: Vec::new(),
            value_pool: Vec::new(),
            case_pool: Vec::new(),
            filling: false,
            sealed: false,
        };
        assert(signature_views(builder.sig_refs@) == Seq::<SignatureView>::empty());
        builder
    }

    /// Creates a block. Nothing is emitted into it before the builder
    /// switches to it.
    pub fn create_block(&mut self) -> (block: Block)
        ensures
            block == old(self)@.next_block(),
            final(self)@ == old(self)@.with_block(),
            final(self).signature() == old(self).signature(),
    {
        let block = Block { index: self.block_starts.len() };
        self.block_starts.push(None);
        block
    }

    /// Makes `block` the block that instructions are emitted into. The block
    /// filled before must have ended, and `block` must be empty.
    pub fn switch_to_block(&mut self, block: Block)
        requires
            !old(self)@.filling,
            block.index < old(self)@.block_starts.len(),
            old(self)@.block_starts[block.index as int] is None,
        ensures
            final(self)@ == old(self)@.at_block(block),
            final(self).signature() == old(self).signature(),
    {
        let start = self.insts.len();
        self.block_starts[block.index] = Some(start);
        self.filling = true;
    }

    /// Gives the function its parameters, as the first values of the body,
    /// and returns them in order.
    pub fn append_block_params_for_function_params(&mut self) -> (params: Vec<Value>)
        requires
            old(self)@.value_types.len() == 0,
        ensures
            final(self)@ == (Body {
                value_types: old(self).signature().params,
                params: old(self).signature().params.len(),
                ..old(self)@
            }),
            final(self).signature() == old(self).signature(),
            params@.len() == old(self).signature().params.len(),
            forall|i: int| 0 <= i < params@.len() ==> (#[trigger] params@[i]).index == i,
    {
        let mut params: Vec<Value> = Vec::new();
        let mut i: usize = 0;
        while i < self.signature.params.len()
            invariant
                i <= self.signature.params@.len(),
                params@.len() == i,
                forall|j: int| 0 <= j < i ==> (#[trigger] params@[j]).index == j,
            decreases self.signature.params@.len() - i,
        {
            params.push(Value { index: i });
            i = i + 1;
        }
        self.value_types = copy_types(&self.signature.params);
        self.params = self.signature.params.len();
        params
    }

    /// Defines a new value of type `ty`. The instruction that computes it is
    /// emitted next.
    pub fn new_value(&mut self, ty: Type) -> (value: Value)
        ensures
            value == old(self)@.next_value(),
            final(self)@ == old(self)@.with_value(ty),
            final(self).signature() == old(self).signature(),
    {
        let value = Value { index: self.value_types.len() };
        self.value_types.push(ty);
        value
    }

    /// Emits `inst` at the end of the block that is being filled.
    pub fn emit(&mut self, inst: Inst)
        requires
            old(self)@.filling,
        ensures
            final(self)@ == old(self)@.with_inst(inst),
            final(self).signature() == old(self).signature(),
    {
        let ends = inst.ends_block();
        self.insts.push(inst);
        if ends {
            self.filling = false;
        }
    }

    /// Creates a frame slot of `size` bytes.
    pub fn create_stack_slot(&mut self, size: u32) -> (slot: StackSlot)
        ensures
            slot == old(self)@.next_slot(),
            final(self)@ == old(self)@.with_slot(size),
            final(self).signature() == old(self).signature(),
    {
        let slot = StackSlot { index: self.stack_slots.len() };
        self.stack_slots.push(size);
        slot
    }

    /// Declares a variable of type `ty`.
    pub fn declare_var(&mut self, ty: Type) -> (var: Variable)
        ensures
            var == old(self)@.next_variable(),
            final(self)@ == old(self)@.with_variable(ty),
            final(self).signature() == old(self).signature(),
    {
        let var = Variable { index: self.variables.len() };
        self.variables.push(ty);
        var
    }

    /// Makes a function of the module known to this body.
    pub fn import_function(&mut self, func: FuncId) -> (func_ref: FuncRef)
        ensures
            func_ref == old(self)@.next_func_ref(),
            final(self)@ == old(self)@.with_func_ref(func),
            final(self).signature() == old(self).signature(),
    {
        let func_ref = FuncRef { index: self.func_refs.len() };
        self.func_refs.push(func);
        func_ref
    }

    /// Makes a signature known to this body.
    pub fn import_signature(&mut self, sig: Signature) -> (sig_ref: SigRef)
        ensures
            sig_ref == old(self)@.next_sig_ref(),
            final(self)@ == old(self)@.with_sig_ref(sig@),
            final(self).signature() == old(self).signature(),
    {
        let sig_ref = SigRef { index: self.sig_refs.len() };
        self.sig_refs.push(sig);
        assert(signature_views(self.sig_refs@) == signature_views(old(self).sig_refs@).push(sig@));
        sig_ref
    }

    /// Adds the operands of a call to the value pool.
    pub fn add_values(&mut self, values: &Vec<Value>) -> (range: PoolRange)
        ensures
            range == old(self)@.next_values(values@),
            final(self)@ == old(self)@.with_values(values@),
            final(self).signature() == old(self).signature(),
    {
        let range = PoolRange { start: self.value_pool.len(), len: values.len() };
        let mut i: usize = 0;
        while i < values.len()
            invariant
                i <= values@.len(),
                self.value_pool@ == old(self).value_pool@ + values@.take(i as int),
                self.insts == old(self).insts,
                self.block_starts == old(self).block_starts,
                self.value_types == old(self).value_types,
                self.params == old(self).params,
                self.stack_slots == old(self).stack_slots,
                self.variables == old(self).variables,
                self.func_refs == old(self).func_refs,
                self.sig_refs == old(self).sig_refs,
                self.case_pool == old(self).case_pool,
                self.filling == old(self).filling,
                self.sealed == old(self).sealed,
                self.signature == old(self).signature,
            decreases values@.len() - i,
        {
            self.value_pool.push(values[i]);
            assert(values@.take(i + 1) == values@.take(i as int).push(values@[i as int]));
            i = i + 1;
        }
        assert(values@.take(values@.len() as int) == values@);
        range
    }

    /// Adds the cases of a switch to the case pool.
    pub fn add_cases(&mut self, cases: &Vec<(u64, Block)>) -> (range: PoolRange)
        ensures
            range == old(self)@.next_cases(cases@),
            final(self)@ == old(self)@.with_cases(cases@),
            final(self).signature() == old(self).signature(),
    {
        let range = PoolRange { start: self.case_pool.len(), len: cases.len() };
        let mut i: usize = 0;
        while i < cases.len()
            invariant
                i <= cases@.len(),
                self.case_pool@ == old(self).case_pool@ + cases@.take(i as int),
                self.insts == old(self).insts,
                self.block_starts == old(self).block_starts,
                self.value_types == old(self).value_types,
                self.params == old(self).params,
                self.stack_slots == old(self).stack_slots,
                self.variables == old(self).variables,
                self.func_refs == old(self).func_refs,
                self.sig_refs == old(self).sig_refs,
                self.value_pool == old(self).value_pool,
                self.filling == old(self).filling,
                self.sealed == old(self).sealed,
                self.signature == old(self).signature,
            decreases cases@.len() - i,
        {
            self.case_pool.push(cases[i]);
            assert(cases@.take(i + 1) == cases@.take(i as int).push(cases@[i as int]));
            i = i + 1;
        }
        assert(cases@.take(cases@.len() as int) == cases@);
        range
    }

    /// Seals every block: from here on no block gets another predecessor.
    pub fn seal_all_blocks(&mut self)
        requires
            !old(self)@.filling,
        ensures
            final(self)@ == (Body { sealed: true, ..old(self)@ }),
            final(self).signature() == old(self).signature(),
    {
        self.sealed = true;
    }

    /// The tables of a builder are vectors, hence short enough.
    pub proof fn lemma_fits(&self)
        ensures
            crate::growth::fits(self@),
    {
        vstd::std_specs::vec::axiom_spec_len(&self.insts);
        vstd::std_specs::vec::axiom_spec_len(&self.block_starts);
        vstd::std_specs::vec::axiom_spec_len(&self.value_types);
        vstd::std_specs::vec::axiom_spec_len(&self.stack_slots);
        vstd::std_specs::vec::axiom_spec_len(&self.variables);
        vstd::std_specs::vec::axiom_spec_len(&self.func_refs);
        vstd::std_specs::vec::axiom_spec_len(&self.sig_refs);
        vstd::std_specs::vec::axiom_spec_len(&self.value_pool);
        vstd::std_specs::vec::axiom_spec_len(&self.case_pool);
    }

    /// Ends the building and hands out the function.
    pub fn finalize(self) -> (function: Function)
        requires
            self@.sealed,
            !self@.filling,
        ensures
            function.body() == self@,
            function.signature@ == self.signature(),
    {
        Function {
            signature: self.signature,
            insts: self.insts,
            block_starts: self.block_starts,
            value_types: self.value_types,
            params: self.params,
            stack_slots: self.stack_slots,
            variables: self.variables,
            func_refs: self.func_refs,
            sig_refs: self.sig_refs,
            value_pool: self.value_pool,
            case_pool: self.case_pool,
        }
    }
}

impl Function {
    /// The function body as a mathematical value.
    pub open spec fn body(&self) -> Body {
        Body {
            insts: self.insts@,
            block_starts: self.block_starts@,
            value_types: self.value_types@,
            params: self.params as nat,
            stack_slots: self.stack_slots@,
            variables: self.variables@,
            func_refs: self.func_refs@,
            sig_refs: signature_views(self.sig_refs@),
            value_pool: self.value_pool@,
            case_pool: self.case_pool@,
            filling: false,
            sealed: true,
        }
    }
}

} // verus!

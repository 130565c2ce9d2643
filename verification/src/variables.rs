//! Names in a contract: variables that every contract has, constants, parameters and
//! local bindings.
use vstd::prelude::*;
use vstd::string::StringExecFns;

use crate::analysis::SymbolicExpression;
use crate::builder::InstrSeqBuilder;
use crate::clarity_vm::{
    is_reserved_function, is_reserved_function_name, is_reserved_variable_name,
    lookup_native_variable, native_variable, NativeVariables,
};
use crate::error::{internal_error, type_error, Failure, GeneratorError};
use crate::generator::{first_memory_index, internal, GeneratorView, WasmGenerator};
use crate::growth::{
    lemma_called, lemma_emitted, lemma_generator_grew, lemma_grew_twice,
    lemma_no_growth, reached, stage,
};
use crate::ir::{group_emit, lemma_emit_all_nothing, no_ops, Op, WasmType};
use crate::layout::{
    add_placeholder_for_clarity_type, placeholders, wasm_repr, PRINCIPAL_BYTES_MAX,
};
use crate::memory::{
    call_stack_ops, lemma_reading_keeps_to_itself, no_value_type, pushes, read_failure, read_ops,
};
use crate::progress::{progress, Progress};
use crate::types::{pointee, share, TypeSignature};
use crate::wasm_module::{function_by_name, local_index, local_indices};

verus! {

broadcast use group_emit;

/// The failure for a call frame that is larger than memory.
pub open spec fn frame_too_large() -> Failure {
    internal("call frame is too large"@)
}

/// Pushes a place on the call stack for a principal, and the size of that place.
pub open spec fn principal_place_effect(start: Progress) -> Progress {
    let size = PRINCIPAL_BYTES_MAX as i32;
    let local = start.generator.next_local();
    if start.generator.frame_size + size > i32::MAX {
        start.fail(frame_too_large())
    } else {
        Progress {
            generator: start.generator.with_call_stack_local(size as nat),
            ..start.emit_all(
                call_stack_ops(start.generator.stack_pointer, local, size),
            ).emit_all(no_ops().push(Op::LocalGet(local)).push(Op::I32Const(size)))
        }
    }
}

/// Pushes the value of a variable that every contract has.
pub open spec fn reserved_variable_effect(
    start: Progress,
    variable: NativeVariables,
    expr: SymbolicExpression,
) -> Progress {
    match variable {
        NativeVariables::TxSender => principal_place_effect(start).call("stdlib.tx_sender"@),
        NativeVariables::ContractCaller => principal_place_effect(start).call(
            "stdlib.contract_caller"@,
        ),
        NativeVariables::TxSponsor => principal_place_effect(start).call("stdlib.tx_sponsor"@),
        NativeVariables::BlockHeight => start.call("stdlib.block_height"@),
        NativeVariables::StacksBlockHeight => start.call("stdlib.stacks_block_height"@),
        NativeVariables::TenureHeight => start.call("stdlib.tenure_height"@),
        NativeVariables::BurnBlockHeight => start.call("stdlib.burn_block_height"@),
        NativeVariables::NativeNone => match start.generator.analysis.type_of(expr) {
            Some(ty) => start.emit_all(placeholders(wasm_repr(*ty))),
            None => start.fail(Failure::TypeError("'none' must be typed"@)),
        },
        NativeVariables::NativeTrue => start.emit_all(no_ops().push(Op::I32Const(1))),
        NativeVariables::NativeFalse => start.emit_all(no_ops().push(Op::I32Const(0))),
        NativeVariables::TotalLiquidMicroSTX => start.call("stdlib.stx_liquid_supply"@),
        NativeVariables::Regtest => start.call("stdlib.is_in_regtest"@),
        NativeVariables::Mainnet => start.call("stdlib.is_in_mainnet"@),
        NativeVariables::ChainId => start.call("stdlib.chain_id"@),
    }
}

/// Pushes a value that is in memory at the address in local `base`.
pub open spec fn read_effect(start: Progress, ty: TypeSignature, base: nat) -> Progress {
    match read_failure(start.generator, ty, 0) {
        Some(failure) if failure != no_value_type() => start.fail(failure),
        failure => Progress {
            failure,
            ..start.emit_all(read_ops(ty, first_memory_index(start.generator.module)->0, base, 0))
        },
    }
}

/// Pushes the value of a constant that is in memory at `offset`.
pub open spec fn constant_effect(
    start: Progress,
    offset: u32,
    expr: SymbolicExpression,
) -> Progress {
    let local = start.generator.next_local();
    let addressed = Progress {
        generator: start.generator.add_local(WasmType::I32),
        ..start.emit_all(no_ops().push(Op::I32Const(offset as i32)).push(Op::LocalSet(local)))
    };
    match start.generator.analysis.type_of(expr) {
        Some(ty) => read_effect(addressed, *ty, local),
        None => addressed.fail(Failure::TypeError("constant must be typed"@)),
    }
}

/// Pushes the value of a name: of a variable that every contract has, else of a constant,
/// else of a parameter or local binding.
#[verifier::opaque]
pub open spec fn atom_effect(
    start: Progress,
    name: Seq<char>,
    expr: SymbolicExpression,
) -> Progress {
    let generator = start.generator;
    match native_variable(name, generator.analysis.version) {
        Some(variable) => reserved_variable_effect(start, variable, expr),
        None => if generator.constants.contains_key(name) {
            constant_effect(start, generator.constants[name], expr)
        } else if generator.bindings.contains_key(name) {
            start.emit_all(pushes(generator.bindings[name]))
        } else {
            start.fail(internal("unable to find local for "@ + name))
        },
    }
}

/// Making room for a principal grows the function.
proof fn lemma_principal_place_grows(start: Progress)
    requires
        start.code.wf(),
        start.failure is None,
    ensures
        reached(principal_place_effect(start)).grew_from(reached(start)),
        principal_place_effect(start).code.wf(),
{
    broadcast use lemma_grew_twice;

    lemma_no_growth(reached(start));
    let size = PRINCIPAL_BYTES_MAX as i32;
    let generator = start.generator;
    let local = generator.next_local();
    let ops = call_stack_ops(generator.stack_pointer, local, size);
    lemma_emitted(generator, start.code, ops);
    let placed = start.emit_all(ops);
    lemma_emitted(
        generator,
        placed.code,
        no_ops().push(Op::LocalGet(local)).push(Op::I32Const(size)),
    );
    if generator.frame_size + size <= i32::MAX {
        let after = generator.with_call_stack_local(size as nat);
        reveal(GeneratorView::grew_from);
        lemma_generator_grew(generator, after, principal_place_effect(start).code);
    }
}

/// Pushing the value of a name grows the function.
proof fn lemma_atom_grows(start: Progress, name: Seq<char>, expr: SymbolicExpression)
    requires
        start.code.wf(),
        start.failure is None,
    ensures
        reached(atom_effect(start, name, expr)).grew_from(reached(start)),
{
    broadcast use lemma_grew_twice;

    reveal(atom_effect);
    lemma_no_growth(reached(start));
    let generator = start.generator;
    match native_variable(name, generator.analysis.version) {
        Some(variable) => lemma_reserved_variable_grows(start, variable, expr),
        None => if generator.constants.contains_key(name) {
            lemma_constant_grows(start, generator.constants[name], expr);
        } else if generator.bindings.contains_key(name) {
            lemma_emitted(generator, start.code, pushes(generator.bindings[name]));
        },
    }
}

proof fn lemma_reserved_variable_grows(
    start: Progress,
    variable: NativeVariables,
    expr: SymbolicExpression,
)
    requires
        start.code.wf(),
        start.failure is None,
    ensures
        reached(reserved_variable_effect(start, variable, expr)).grew_from(reached(start)),
{
    broadcast use lemma_grew_twice;

    lemma_no_growth(reached(start));
    lemma_principal_place_grows(start);
    let placed = principal_place_effect(start);
    match variable {
        NativeVariables::TxSender => lemma_called(placed, "stdlib.tx_sender"@),
        NativeVariables::ContractCaller => lemma_called(placed, "stdlib.contract_caller"@),
        NativeVariables::TxSponsor => lemma_called(placed, "stdlib.tx_sponsor"@),
        NativeVariables::BlockHeight => lemma_called(start, "stdlib.block_height"@),
        NativeVariables::StacksBlockHeight => lemma_called(start, "stdlib.stacks_block_height"@),
        NativeVariables::TenureHeight => lemma_called(start, "stdlib.tenure_height"@),
        NativeVariables::BurnBlockHeight => lemma_called(start, "stdlib.burn_block_height"@),
        NativeVariables::NativeNone => {
            if let Some(ty) = start.generator.analysis.type_of(expr) {
                lemma_emitted(start.generator, start.code, placeholders(wasm_repr(pointee(ty))));
            }
        },
        NativeVariables::NativeTrue => {
            lemma_emitted(start.generator, start.code, no_ops().push(Op::I32Const(1)));
        },
        NativeVariables::NativeFalse => {
            lemma_emitted(start.generator, start.code, no_ops().push(Op::I32Const(0)));
        },
        NativeVariables::TotalLiquidMicroSTX => lemma_called(start, "stdlib.stx_liquid_supply"@),
        NativeVariables::Regtest => lemma_called(start, "stdlib.is_in_regtest"@),
        NativeVariables::Mainnet => lemma_called(start, "stdlib.is_in_mainnet"@),
        NativeVariables::ChainId => lemma_called(start, "stdlib.chain_id"@),
    }
}

proof fn lemma_constant_grows(start: Progress, offset: u32, expr: SymbolicExpression)
    requires
        start.code.wf(),
        start.failure is None,
    ensures
        reached(constant_effect(start, offset, expr)).grew_from(reached(start)),
{
    broadcast use lemma_grew_twice;

    let generator = start.generator;
    let local = generator.next_local();
    let ops = no_ops().push(Op::I32Const(offset as i32)).push(Op::LocalSet(local));
    lemma_emitted(generator, start.code, ops);
    let code = start.code.emit_all(ops);
    let after = generator.add_local(WasmType::I32);
    reveal(GeneratorView::grew_from);
    lemma_generator_grew(generator, after, code);
    if let Some(ty) = generator.analysis.type_of(expr) {
        let memory = first_memory_index(after.module)->0;
        lemma_reading_keeps_to_itself(
            pointee(ty),
            memory,
            local,
            0,
            after.next_local(),
            code.function.blocks.len(),
            after.early_return_block,
        );
        lemma_emitted(after, code, read_ops(pointee(ty), memory, local, 0));
    }
}

impl WasmGenerator {
    /// Calls the function of a name.
    pub(crate) fn call_function(&self, builder: &mut InstrSeqBuilder, name: &str) -> (result:
        Result<(), GeneratorError>)
        requires
            old(builder).wf(),
        ensures
            final(builder).wf(),
            final(builder).seq == old(builder).seq,
            final(builder).grew_from(*old(builder)),
            progress(*self, *final(builder), result) == Progress::start(
                self@,
                old(builder)@,
            ).call(name@),
    {
        match function_by_name(&self.module, name) {
            Some(function) => {
                builder.call(function);
                Ok(())
            },
            None => Err(
                GeneratorError::InternalError("function not found: ".to_owned().concat(name)),
            ),
        }
    }

    /// Pushes a place on the call stack for a principal, and the size of that place.
    fn push_principal_place(&mut self, builder: &mut InstrSeqBuilder) -> (result: Result<
        (),
        GeneratorError,
    >)
        requires
            old(self).wf(),
            old(builder).wf(),
        ensures
            final(self).wf(),
            final(builder).wf(),
            final(builder).seq == old(builder).seq,
            final(builder).grew_from(*old(builder)),
            progress(*final(self), *final(builder), result) == principal_place_effect(
                Progress::start(old(self)@, old(builder)@),
            ),
    {
        if self.frame_size > i32::MAX - PRINCIPAL_BYTES_MAX as i32 {
            return Err(internal_error("call frame is too large"));
        }
        // Create a new local to hold the result on the call stack
        let (offset, size) = self.create_call_stack_local(
            builder,
            &TypeSignature::PrincipalType,
            false,
            true,
        );
        proof {
            lemma_emit_all_nothing(builder@);
        }
        // Push the offset and size to the data stack
        builder.local_get(offset);
        builder.i32_const(size);
        Ok(())
    }

    /// Pushes the value of a variable that every contract has.
    pub fn visit_reserved_variable(
        &mut self,
        builder: &mut InstrSeqBuilder,
        variable: NativeVariables,
        expr: &SymbolicExpression,
    ) -> (result: Result<(), GeneratorError>)
        requires
            old(self).wf(),
            old(builder).wf(),
        ensures
            final(self).wf(),
            final(builder).wf(),
            final(builder).seq == old(builder).seq,
            final(builder).grew_from(*old(builder)),
            stage(final(self)@, final(builder)@).grew_from(stage(old(self)@, old(builder)@)),
            progress(*final(self), *final(builder), result) == reserved_variable_effect(
                Progress::start(old(self)@, old(builder)@),
                variable,
                *expr,
            ),
    {
        proof {
            lemma_emit_all_nothing(builder@);
            lemma_reserved_variable_grows(Progress::start(self@, builder@), variable, *expr);
        }
        match variable {
            NativeVariables::TxSender => {
                self.push_principal_place(builder)?;
                self.call_function(builder, "stdlib.tx_sender")
            },
            NativeVariables::ContractCaller => {
                self.push_principal_place(builder)?;
                self.call_function(builder, "stdlib.contract_caller")
            },
            NativeVariables::TxSponsor => {
                self.push_principal_place(builder)?;
                self.call_function(builder, "stdlib.tx_sponsor")
            },
            NativeVariables::BlockHeight => self.call_function(builder, "stdlib.block_height"),
            NativeVariables::StacksBlockHeight => self.call_function(
                builder,
                "stdlib.stacks_block_height",
            ),
            NativeVariables::TenureHeight => self.call_function(builder, "stdlib.tenure_height"),
            NativeVariables::BurnBlockHeight => self.call_function(
                builder,
                "stdlib.burn_block_height",
            ),
            NativeVariables::NativeNone => {
                match self.get_expr_type(expr) {
                    Some(ty) => {
                        add_placeholder_for_clarity_type(builder, ty);
                        Ok(())
                    },
                    None => Err(type_error("'none' must be typed")),
                }
            },
            NativeVariables::NativeTrue => {
                builder.i32_const(1);
                Ok(())
            },
            NativeVariables::NativeFalse => {
                builder.i32_const(0);
                Ok(())
            },
            NativeVariables::TotalLiquidMicroSTX => self.call_function(
                builder,
                "stdlib.stx_liquid_supply",
            ),
            NativeVariables::Regtest => self.call_function(builder, "stdlib.is_in_regtest"),
            NativeVariables::Mainnet => self.call_function(builder, "stdlib.is_in_mainnet"),
            NativeVariables::ChainId => self.call_function(builder, "stdlib.chain_id"),
        }
    }

    /// If `name` is a reserved variable, push its value onto the data stack.
    pub fn lookup_reserved_variable(
        &mut self,
        builder: &mut InstrSeqBuilder,
        name: &str,
        expr: &SymbolicExpression,
    ) -> (result: Result<bool, GeneratorError>)
        requires
            old(self).wf(),
            old(builder).wf(),
        ensures
            final(self).wf(),
            final(builder).wf(),
            final(builder).seq == old(builder).seq,
            final(builder).grew_from(*old(builder)),
            stage(final(self)@, final(builder)@).grew_from(stage(old(self)@, old(builder)@)),
            match native_variable(name@, old(self)@.analysis.version) {
                Some(variable) => {
                    &&& progress(*final(self), *final(builder), result)
                        == reserved_variable_effect(
                        Progress::start(old(self)@, old(builder)@),
                        variable,
                        *expr,
                    )
                    &&& result matches Ok(found) ==> found
                },
                None => {
                    &&& result == Ok::<bool, GeneratorError>(false)
                    &&& final(self)@ == old(self)@
                    &&& final(builder)@ == old(builder)@
                },
            },
    {
        proof {
            lemma_no_growth(stage(self@, builder@));
        }
        match lookup_native_variable(name, self.contract_analysis.clarity_version) {
            Some(variable) => {
                self.visit_reserved_variable(builder, variable, expr)?;
                Ok(true)
            },
            None => Ok(false),
        }
    }

    /// If `name` is a constant, push its value onto the data stack.
    pub fn lookup_constant_variable(
        &mut self,
        builder: &mut InstrSeqBuilder,
        name: &str,
        expr: &SymbolicExpression,
    ) -> (result: Result<bool, GeneratorError>)
        requires
            old(self).wf(),
            old(builder).wf(),
        ensures
            final(self).wf(),
            final(builder).wf(),
            final(builder).seq == old(builder).seq,
            final(builder).grew_from(*old(builder)),
            stage(final(self)@, final(builder)@).grew_from(stage(old(self)@, old(builder)@)),
            if old(self)@.constants.contains_key(name@) {
                &&& progress(*final(self), *final(builder), result) == constant_effect(
                    Progress::start(old(self)@, old(builder)@),
                    old(self)@.constants[name@],
                    *expr,
                )
                &&& result matches Ok(found) ==> found
            } else {
                &&& result == Ok::<bool, GeneratorError>(false)
                &&& final(self)@ == old(self)@
                &&& final(builder)@ == old(builder)@
            },
    {
        proof {
            lemma_no_growth(stage(self@, builder@));
            if self@.constants.contains_key(name@) {
                lemma_constant_grows(
                    Progress::start(self@, builder@),
                    self@.constants[name@],
                    *expr,
                );
            }
        }
        let offset: u32 = match self.constants.get(name) {
            Some(offset) => *offset,
            None => return Ok(false),
        };
        proof {
            lemma_emit_all_nothing(builder@);
        }
        // Load the offset into a local variable
        let offset_local = self.add_local(WasmType::I32);
        builder.i32_const(offset as i32);
        builder.local_set(offset_local);

        let ty = match self.get_expr_type(expr) {
            Some(ty) => share(ty),
            None => return Err(type_error("constant must be typed")),
        };
        self.read_from_memory(builder, offset_local, 0, &ty)?;
        Ok(true)
    }

    /// Pushes the value of a name.
    pub(crate) fn visit_atom(
        &mut self,
        builder: &mut InstrSeqBuilder,
        expr: &SymbolicExpression,
        atom: &str,
    ) -> (result: Result<(), GeneratorError>)
        requires
            old(self).wf(),
            old(builder).wf(),
        ensures
            final(self).wf(),
            final(builder).wf(),
            final(builder).seq == old(builder).seq,
            final(builder).grew_from(*old(builder)),
            stage(final(self)@, final(builder)@).grew_from(stage(old(self)@, old(builder)@)),
            progress(*final(self), *final(builder), result) == atom_effect(
                Progress::start(old(self)@, old(builder)@),
                atom@,
                *expr,
            ),
    {
        proof {
            lemma_atom_grows(Progress::start(self@, builder@), atom@, *expr);
        }
        reveal(atom_effect);
        // Handle builtin variables
        if self.lookup_reserved_variable(builder, atom, expr)? {
            return Ok(());
        }
        if self.lookup_constant_variable(builder, atom, expr)? {
            return Ok(());
        }
        // Handle parameters and local bindings
        let values = match self.bindings.get(atom) {
            Some(values) => values,
            None => {
                return Err(
                    GeneratorError::InternalError(
                        "unable to find local for ".to_owned().concat(atom),
                    ),
                );
            },
        };
        push_locals(builder, values);
        Ok(())
    }

    /// Whether a variable or function that every contract has is called `name`.
    pub fn is_reserved_name(&self, name: &str) -> (result: bool)
        ensures
            result == (is_reserved_function(name@, self@.analysis.version) || native_variable(
                name@,
                self@.analysis.version,
            ) is Some),
    {
        let version = self.contract_analysis.clarity_version;
        is_reserved_function_name(name, version) || is_reserved_variable_name(name, version)
    }
}

/// Pushes the values of locals.
pub(crate) fn push_locals(builder: &mut InstrSeqBuilder, locals: &Vec<walrus::LocalId>)
    requires
        old(builder).wf(),
    ensures
        final(builder).extended(*old(builder), pushes(local_indices(locals@))),
{
    let ghost indices = local_indices(locals@);
    proof {
        lemma_emit_all_nothing(builder@);
        assert(pushes(indices.take(0)) =~= Seq::empty());
    }
    let mut i: usize = 0;
    while i < locals.len()
        invariant
            i <= locals@.len(),
            indices == local_indices(locals@),
            old(builder).wf(),
            builder.extended(*old(builder), pushes(indices.take(i as int))),
        decreases locals@.len() - i,
    {
        builder.local_get(locals[i]);
        assert(pushes(indices.take(i + 1)) =~= pushes(indices.take(i as int)).push(
            Op::LocalGet(local_index(locals@[i as int])),
        ));
        i += 1;
    }
    assert(indices.take(i as int) =~= indices);
}

} // verus!

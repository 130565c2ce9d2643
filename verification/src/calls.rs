//! Calls of functions that the contract defines, and leaving a function early.
use vstd::prelude::*;
use vstd::string::StringExecFns;
use walrus::ir::InstrSeqId;

use crate::builder::InstrSeqBuilder;
use crate::error::{internal_error, type_error, Failure, GeneratorError};
use crate::generator::{first_memory_index, internal, WasmGenerator};
use crate::growth::{
    lemma_called, lemma_emitted, lemma_emitted_since, lemma_grew_twice, lemma_grown_code,
    lemma_locals_added, lemma_no_growth, lemma_visited_inside, reached, stage,
};
use crate::ir::{group_emit, lemma_emit_all_nothing, no_ops, ModuleView, Op, WasmType};
use crate::layout::{is_in_memory_type, stays_in_memory, wasm_repr};
use crate::memory::{locals_from, no_value_type, pops_into, pushes};
use crate::progress::{progress, Progress};
use crate::types::TypeSignature;
use crate::variables::push_locals;
use crate::wasm_module::{local_indices, new_block_type, seq_index};

verus! {

broadcast use group_emit;

/// A call of a function in a new instruction sequence.
pub open spec fn block_call_effect(start: Progress, name: Seq<char>) -> Progress {
    let inside = Progress { code: start.code.enter_block(Seq::empty()), ..start }.call(name);
    Progress { code: inside.code.at_block(start.code.block), ..inside }
}

/// A call of a read-only function of the contract. What it did is rolled back.
pub open spec fn read_only_call_effect(start: Progress, name: Seq<char>) -> Progress {
    start.call("stdlib.begin_read_only_call"@).call(name).call("stdlib.roll_back_call"@)
}

/// Pops the result of a public function into locals, in which the first one holds whether
/// the function succeeded.
pub open spec fn save_result_effect(start: Progress, return_ty: TypeSignature) -> Progress {
    let repr = wasm_repr(return_ty);
    Progress {
        generator: start.generator.add_locals(repr.reverse()),
        ..start.emit_all(pops_into(start.generator.next_local(), repr.len()))
    }
}

/// Commits what a public function did, or rolls it back, and pushes its result again.
pub open spec fn settle_call_effect(start: Progress, result_locals: Seq<nat>) -> Progress {
    if result_locals.len() == 0 {
        start.fail(internal("public functions must return a response"@))
    } else {
        let commit = start.code.function.blocks.len();
        let committed = block_call_effect(start, "stdlib.commit_call"@);
        if committed.failure is Some {
            committed
        } else {
            let settled = block_call_effect(committed, "stdlib.roll_back_call"@);
            settled.emit_all(
                no_ops()
                    .push(Op::LocalGet(result_locals[0]))
                    .push(Op::IfElse { consequent: commit, alternative: commit + 1 }),
            ).emit_all(pushes(result_locals))
        }
    }
}

/// A call of a public function of the contract, through the host, which can roll it back.
pub open spec fn public_call_effect(
    start: Progress,
    return_ty: TypeSignature,
    name: Seq<char>,
) -> Progress {
    let called = start.call("stdlib.begin_public_call"@).call(name);
    if called.failure is Some {
        called
    } else {
        settle_call_effect(
            save_result_effect(called, return_ty),
            locals_from(called.generator.next_local(), wasm_repr(return_ty).len()).reverse(),
        )
    }
}

/// Pops where a result is and its length, and makes room for it in the caller's frame.
pub open spec fn reserve_ops(n: nat, stack_pointer: nat) -> Seq<Op> {
    no_ops()
        .push(Op::LocalSet(n + 1))
        .push(Op::LocalSet(n))
        .push(Op::GlobalGet(stack_pointer))
        .push(Op::LocalTee(n + 2))
        .push(Op::LocalGet(n + 1))
        .push(Op::I32Add)
        .push(Op::GlobalSet(stack_pointer))
}

/// Copies a result into the room that was made, and pushes where it is and its length.
pub open spec fn copy_ops(n: nat, memory: nat) -> Seq<Op> {
    no_ops()
        .push(Op::LocalGet(n + 2))
        .push(Op::LocalGet(n))
        .push(Op::LocalGet(n + 1))
        .push(Op::MemoryCopy { source: memory, destination: memory })
        .push(Op::LocalGet(n + 2))
        .push(Op::LocalGet(n + 1))
}

/// Copies a result that is in memory from the callee's frame to the caller's.
pub open spec fn copy_result_effect(start: Progress, return_ty: TypeSignature) -> Progress {
    if start.failure is Some {
        start
    } else if return_ty is ListUnionType {
        start.fail(no_value_type())
    } else if stays_in_memory(return_ty) {
        let n = start.generator.next_local();
        let reserved = Progress {
            generator: start.generator.add_locals(
                seq![WasmType::I32, WasmType::I32, WasmType::I32],
            ),
            ..start.emit_all(reserve_ops(n, start.generator.stack_pointer))
        };
        match first_memory_index(start.generator.module) {
            Some(memory) => reserved.emit_all(copy_ops(n, memory)),
            None => reserved.fail(internal("No memory found"@)),
        }
    } else {
        start
    }
}

/// A call of a function of the contract whose arguments have been pushed.
#[verifier::opaque]
pub open spec fn user_call_effect(
    start: Progress,
    return_ty: TypeSignature,
    name: Seq<char>,
) -> Progress {
    let analysis = start.generator.analysis;
    if analysis.public_functions.contains_key(name) {
        copy_result_effect(public_call_effect(start, return_ty, name), return_ty)
    } else if analysis.read_only_functions.contains_key(name) {
        copy_result_effect(read_only_call_effect(start, name), return_ty)
    } else if analysis.private_functions.contains_key(name) {
        copy_result_effect(start.call(name), return_ty)
    } else {
        start.fail(Failure::TypeError("function not found: "@ + name))
    }
}

/// Leaves the function that is being built, or stops the contract where there is none.
pub open spec fn return_early_effect(start: Progress) -> Progress {
    match start.generator.early_return_block {
        Some(block) => start.emit_all(no_ops().push(Op::Br(block))),
        None => start.emit_all(no_ops().push(Op::I32Const(7))).call(
            "stdlib.runtime-error"@,
        ).emit_all(no_ops().push(Op::Unreachable)),
    }
}

/// Logs a number of 64 bits.
pub open spec fn log_i64_ops(module: ModuleView) -> Seq<Op> {
    no_ops().push(Op::Call(module.function("log"@)))
}

/// Logs a number of 32 bits, which is made wider for this.
pub open spec fn log_i32_ops(module: ModuleView) -> Seq<Op> {
    no_ops().push(Op::I64ExtendUI32).push(Op::Call(module.function("log"@)))
}

/// A call in a sequence of its own grows the function by one sequence.
proof fn lemma_block_call_grows(start: Progress, name: Seq<char>)
    requires
        start.code.wf(),
    ensures
        reached(block_call_effect(start, name)).grew_from(reached(start)),
        block_call_effect(start, name).code.wf(),
        block_call_effect(start, name).generator == start.generator,
{
    let entered = Progress { code: start.code.enter_block(Seq::empty()), ..start };
    lemma_called(entered, name);
    lemma_visited_inside(
        start.generator,
        start.code,
        Seq::empty(),
        reached(entered.call(name)),
    );
    lemma_grown_code(reached(start), reached(block_call_effect(start, name)));
}

/// Settling a public call grows the function.
proof fn lemma_settling_grows(start: Progress, result_locals: Seq<nat>)
    requires
        start.code.wf(),
        start.failure is None,
    ensures
        reached(settle_call_effect(start, result_locals)).grew_from(reached(start)),
{
    broadcast use lemma_grew_twice;

    lemma_no_growth(reached(start));
    if result_locals.len() > 0 {
        let commit = start.code.function.blocks.len();
        lemma_block_call_grows(start, "stdlib.commit_call"@);
        let committed = block_call_effect(start, "stdlib.commit_call"@);
        lemma_block_call_grows(committed, "stdlib.roll_back_call"@);
        let settled = block_call_effect(committed, "stdlib.roll_back_call"@);
        let ops = no_ops()
            .push(Op::LocalGet(result_locals[0]))
            .push(Op::IfElse { consequent: commit, alternative: commit + 1 });
        lemma_emitted_since(reached(start), reached(settled), ops);
        lemma_emitted(
            settled.generator,
            settled.code.emit_all(ops),
            pushes(result_locals),
        );
    }
}

/// A call of a public function grows the function that calls it.
proof fn lemma_public_call_grows(start: Progress, return_ty: TypeSignature, name: Seq<char>)
    requires
        start.code.wf(),
        start.failure is None,
    ensures
        reached(public_call_effect(start, return_ty, name)).grew_from(reached(start)),
{
    broadcast use lemma_grew_twice;

    let begun = start.call("stdlib.begin_public_call"@);
    lemma_called(start, "stdlib.begin_public_call"@);
    lemma_called(begun, name);
    let called = begun.call(name);
    if called.failure is None {
        let repr = wasm_repr(return_ty);
        let first = called.generator.next_local();
        let ops = pops_into(first, repr.len());
        lemma_emitted(called.generator, called.code, ops);
        lemma_locals_added(called.generator, repr.reverse(), called.code.emit_all(ops));
        lemma_settling_grows(
            save_result_effect(called, return_ty),
            locals_from(first, repr.len()).reverse(),
        );
    }
}

/// Copying a result grows the function.
proof fn lemma_copying_grows(start: Progress, return_ty: TypeSignature)
    requires
        start.code.wf(),
    ensures
        reached(copy_result_effect(start, return_ty)).grew_from(reached(start)),
{
    broadcast use lemma_grew_twice;

    lemma_no_growth(reached(start));
    let n = start.generator.next_local();
    let ops = reserve_ops(n, start.generator.stack_pointer);
    let types = seq![WasmType::I32, WasmType::I32, WasmType::I32];
    lemma_emitted(start.generator, start.code, ops);
    let code = start.code.emit_all(ops);
    lemma_locals_added(start.generator, types, code);
    if let Some(memory) = first_memory_index(start.generator.module) {
        lemma_emitted(start.generator.add_locals(types), code, copy_ops(n, memory));
    }
}

/// A call of a function of the contract grows the function that calls it.
proof fn lemma_user_call_grows(start: Progress, return_ty: TypeSignature, name: Seq<char>)
    requires
        start.code.wf(),
        start.failure is None,
    ensures
        reached(user_call_effect(start, return_ty, name)).grew_from(reached(start)),
{
    broadcast use lemma_grew_twice;

    reveal(user_call_effect);
    lemma_no_growth(reached(start));
    let analysis = start.generator.analysis;
    if analysis.public_functions.contains_key(name) {
        let called = public_call_effect(start, return_ty, name);
        lemma_public_call_grows(start, return_ty, name);
        lemma_grown_code(reached(start), reached(called));
        lemma_copying_grows(called, return_ty);
    } else if analysis.read_only_functions.contains_key(name) {
        let begun = start.call("stdlib.begin_read_only_call"@);
        lemma_called(start, "stdlib.begin_read_only_call"@);
        lemma_called(begun, name);
        lemma_called(begun.call(name), "stdlib.roll_back_call"@);
        lemma_copying_grows(read_only_call_effect(start, name), return_ty);
    } else if analysis.private_functions.contains_key(name) {
        lemma_called(start, name);
        lemma_copying_grows(start.call(name), return_ty);
    }
}

/// Leaving a function early grows it.
proof fn lemma_early_return_grows(start: Progress)
    requires
        start.code.wf(),
        start.failure is None,
    ensures
        reached(return_early_effect(start)).grew_from(reached(start)),
{
    broadcast use lemma_grew_twice;

    match start.generator.early_return_block {
        Some(block) => lemma_emitted(start.generator, start.code, no_ops().push(Op::Br(block))),
        None => {
            let ops = no_ops().push(Op::I32Const(7));
            lemma_emitted(start.generator, start.code, ops);
            let pushed = start.emit_all(ops);
            lemma_called(pushed, "stdlib.runtime-error"@);
            let called = pushed.call("stdlib.runtime-error"@);
            lemma_emitted(called.generator, called.code, no_ops().push(Op::Unreachable));
        },
    }
}

impl WasmGenerator {
    /// Calls a function in a new instruction sequence.
    fn call_in_block(&mut self, builder: &mut InstrSeqBuilder, name: &str) -> (result: Result<
        InstrSeqId,
        GeneratorError,
    >)
        requires
            old(self).wf(),
            old(builder).wf(),
        ensures
            final(self).wf(),
            final(builder).wf(),
            final(builder).seq == old(builder).seq,
            final(builder).grew_from(*old(builder)),
            progress(*final(self), *final(builder), result) == block_call_effect(
                Progress::start(old(self)@, old(builder)@),
                name@,
            ),
            result matches Ok(block) ==> seq_index(block)
                == old(builder)@.function.blocks.len(),
    {
        let outer = builder.seq;
        let results: Vec<WasmType> = Vec::new();
        let ty = new_block_type(&mut self.module, results.as_slice());
        let block = builder.enter_block(ty);
        let called = self.call_function(builder, name);
        builder.seq = outer;
        called?;
        Ok(block)
    }

    /// Call a function defined in the current contract.
    fn local_call(&mut self, builder: &mut InstrSeqBuilder, name: &str) -> (result: Result<
        (),
        GeneratorError,
    >)
        requires
            old(self).wf(),
            old(builder).wf(),
        ensures
            final(self).wf(),
            final(builder).wf(),
            final(builder).seq == old(builder).seq,
            final(builder).grew_from(*old(builder)),
            progress(*final(self), *final(builder), result) == Progress::start(
                old(self)@,
                old(builder)@,
            ).call(name@),
    {
        self.call_function(builder, name)
    }

    /// Call a public function defined in the current contract. This requires
    /// going through the host interface to handle roll backs.
    fn local_call_public(
        &mut self,
        builder: &mut InstrSeqBuilder,
        return_ty: &TypeSignature,
        name: &str,
    ) -> (result: Result<(), GeneratorError>)
        requires
            old(self).wf(),
            old(builder).wf(),
        ensures
            final(self).wf(),
            final(builder).wf(),
            final(builder).seq == old(builder).seq,
            final(builder).grew_from(*old(builder)),
            progress(*final(self), *final(builder), result) == public_call_effect(
                Progress::start(old(self)@, old(builder)@),
                *return_ty,
                name@,
            ),
    {
        // Call the host interface function, `begin_public_call`
        self.call_function(builder, "stdlib.begin_public_call")?;

        self.local_call(builder, name)?;

        // Save the result to a local
        let result_locals = self.save_to_locals(builder, return_ty, true);
        let ghost indices = local_indices(result_locals@);
        if result_locals.len() == 0 {
            return Err(internal_error("public functions must return a response"));
        }
        // If the result is an `ok`, then we can commit the call, and if it
        // is an `err`, then we roll it back. `result_locals[0]` is the
        // response indicator (all public functions return a response).

        let if_id = self.call_in_block(builder, "stdlib.commit_call")?;
        let else_id = self.call_in_block(builder, "stdlib.roll_back_call")?;
        proof {
            lemma_emit_all_nothing(builder@);
        }
        builder.local_get(result_locals[0]);
        builder.if_else(if_id, else_id);

        // Restore the result to the top of the stack.
        push_locals(builder, &result_locals);
        Ok(())
    }

    /// Call a read-only function defined in the current contract.
    fn local_call_read_only(&mut self, builder: &mut InstrSeqBuilder, name: &str) -> (result:
        Result<(), GeneratorError>)
        requires
            old(self).wf(),
            old(builder).wf(),
        ensures
            final(self).wf(),
            final(builder).wf(),
            final(builder).seq == old(builder).seq,
            final(builder).grew_from(*old(builder)),
            progress(*final(self), *final(builder), result) == read_only_call_effect(
                Progress::start(old(self)@, old(builder)@),
                name@,
            ),
    {
        // Call the host interface function, `begin_readonly_call`
        self.call_function(builder, "stdlib.begin_read_only_call")?;

        self.local_call(builder, name)?;

        // Call the host interface function, `roll_back_call`
        self.call_function(builder, "stdlib.roll_back_call")
    }

    /// If an in-memory value is returned from a function, we need to copy
    /// it to our frame, from the callee's frame.
    fn copy_result(&mut self, builder: &mut InstrSeqBuilder, return_ty: &TypeSignature) -> (result:
        Result<(), GeneratorError>)
        requires
            old(self).wf(),
            old(builder).wf(),
        ensures
            final(self).wf(),
            final(builder).wf(),
            final(builder).seq == old(builder).seq,
            final(builder).grew_from(*old(builder)),
            progress(*final(self), *final(builder), result) == copy_result_effect(
                Progress::start(old(self)@, old(builder)@),
                *return_ty,
            ),
    {
        if matches!(return_ty, TypeSignature::ListUnionType) {
            return Err(type_error("Not a valid value type: ListUnionType"));
        }
        if !is_in_memory_type(return_ty) {
            return Ok(());
        }
        proof {
            lemma_emit_all_nothing(builder@);
        }
        // The result may be in the callee's call frame, can be overwritten
        // after returning, so we need to copy it to our frame.
        let result_offset = self.add_local(WasmType::I32);
        let result_length = self.add_local(WasmType::I32);
        builder.local_set(result_length);
        builder.local_set(result_offset);

        // Reserve space to store the returned value.
        let offset = self.add_local(WasmType::I32);
        builder.global_get(self.stack_pointer);
        builder.local_tee(offset);
        builder.local_get(result_length);
        builder.i32_add();
        builder.global_set(self.stack_pointer);

        let memory = self.get_memory()?;
        proof {
            lemma_emit_all_nothing(builder@);
        }
        // Copy the result to our frame.
        builder.local_get(offset);
        builder.local_get(result_offset);
        builder.local_get(result_length);
        builder.memory_copy(memory, memory);

        // Push the copied offset and length to the stack
        builder.local_get(offset);
        builder.local_get(result_length);
        Ok(())
    }

    /// Visit a function call to a user-defined function. Arguments must have
    /// already been traversed and pushed to the stack.
    pub fn visit_call_user_defined(
        &mut self,
        builder: &mut InstrSeqBuilder,
        return_ty: &TypeSignature,
        name: &str,
    ) -> (result: Result<(), GeneratorError>)
        requires
            old(self).wf(),
            old(builder).wf(),
        ensures
            final(self).wf(),
            final(builder).wf(),
            final(builder).seq == old(builder).seq,
            final(builder).grew_from(*old(builder)),
            stage(final(self)@, final(builder)@).grew_from(stage(old(self)@, old(builder)@)),
            progress(*final(self), *final(builder), result) == user_call_effect(
                Progress::start(old(self)@, old(builder)@),
                *return_ty,
                name@,
            ),
    {
        proof {
            lemma_user_call_grows(Progress::start(self@, builder@), *return_ty, name@);
        }
        reveal(user_call_effect);
        if self.contract_analysis.get_public_function_type(name).is_some() {
            self.local_call_public(builder, return_ty, name)?;
        } else if self.contract_analysis.get_read_only_function_type(name).is_some() {
            self.local_call_read_only(builder, name)?;
        } else if self.contract_analysis.get_private_function(name).is_some() {
            self.local_call(builder, name)?;
        } else {
            return Err(GeneratorError::TypeError("function not found: ".to_owned().concat(name)));
        }
        self.copy_result(builder, return_ty)
    }

    /// Leaves the function that is being built, with the value on the top of the stack.
    /// At the top level, where there is no function to leave, the contract is stopped
    /// with a runtime error.
    pub fn return_early(&self, builder: &mut InstrSeqBuilder) -> (result: Result<
        (),
        GeneratorError,
    >)
        requires
            old(builder).wf(),
        ensures
            final(builder).wf(),
            final(builder).seq == old(builder).seq,
            final(builder).grew_from(*old(builder)),
            stage(self@, final(builder)@).grew_from(stage(self@, old(builder)@)),
            progress(*self, *final(builder), result) == return_early_effect(
                Progress::start(self@, old(builder)@),
            ),
    {
        proof {
            lemma_early_return_grows(Progress::start(self@, builder@));
            lemma_emit_all_nothing(builder@);
        }
        if let Some(block_id) = self.early_return_block_id {
            builder.br(block_id);
        } else {
            // This must be from a top-level statement, so it should cause a runtime error
            builder.i32_const(7);
            self.call_function(builder, "stdlib.runtime-error")?;
            proof {
                lemma_emit_all_nothing(builder@);
            }
            builder.unreachable();
        }
        Ok(())
    }

    /// Log an i64 that is on top of the stack.
    pub fn debug_log_i64(&self, builder: &mut InstrSeqBuilder)
        requires
            old(builder).wf(),
            self@.module.has_function("log"@),
        ensures
            final(builder).extended(*old(builder), log_i64_ops(self@.module)),
    {
        proof {
            lemma_emit_all_nothing(builder@);
        }
        builder.call(self.func_by_name("log"));
    }

    /// Log an i32 that is on top of the stack.
    pub fn debug_log_i32(&self, builder: &mut InstrSeqBuilder)
        requires
            old(builder).wf(),
            self@.module.has_function("log"@),
        ensures
            final(builder).extended(*old(builder), log_i32_ops(self@.module)),
    {
        proof {
            lemma_emit_all_nothing(builder@);
        }
        builder.i64_extend_u_i32();
        builder.call(self.func_by_name("log"));
    }
}

} // verus!

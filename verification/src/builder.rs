//! Writing the instructions of a function.
use vstd::prelude::*;
use walrus::ir::{
    BinaryOp, Block, Br, IfElse, InstrSeqId, InstrSeqType, LoadKind, MemArg, StoreKind, UnaryOp,
};
use walrus::{FunctionBuilder, FunctionId, GlobalId, LocalId, MemoryId};

use crate::ir::{lemma_new_block_keeps_ops, BlockCode, CodeView, Op, WasmType};
use crate::wasm_module::{
    block_results, code_arena, function_code, function_index, global_index, local_index,
    memory_index, seq_arena, seq_index, body_of,
};

verus! {

/// A function that is being built, and the instruction sequence that is written to.
pub struct InstrSeqBuilder {
    pub func: FunctionBuilder,
    pub seq: InstrSeqId,
}

/// An empty instruction sequence of a function, which nothing runs yet.
///
/// Trusted: `walrus::FunctionBuilder::dangling_instr_seq` puts an empty sequence at the
/// end of the function's list of sequences and changes nothing else.
#[verifier::external_body]
fn dangling_block(function: &mut FunctionBuilder, ty: InstrSeqType) -> (block: InstrSeqId)
    ensures
        function_code(*final(function)) == function_code(*old(function)).add_block(
            block_results(ty),
        ),
        code_arena(*final(function)) == code_arena(*old(function)),
        seq_index(block) == function_code(*old(function)).blocks.len(),
        seq_arena(block) == code_arena(*old(function)),
{
    function.dangling_instr_seq(ty).id()
}

impl InstrSeqBuilder {
    pub open spec fn view(&self) -> CodeView {
        CodeView { function: function_code(self.func), block: seq_index(self.seq) }
    }

    /// Whether the sequence that is written to is one of the function's.
    pub open spec fn wf(&self) -> bool {
        &&& seq_arena(self.seq) == code_arena(self.func)
        &&& self@.wf()
    }

    /// Whether the function is the one that `before` builds, with all of its sequences
    /// still there, and what they held.
    pub open spec fn grew_from(&self, before: InstrSeqBuilder) -> bool {
        &&& code_arena(self.func) == code_arena(before.func)
        &&& self@.grew_from(before@)
    }

    /// Whether this is `before` with one instruction more.
    pub open spec fn appended(&self, before: InstrSeqBuilder, op: Op) -> bool {
        &&& self.seq == before.seq
        &&& code_arena(self.func) == code_arena(before.func)
        &&& self@ == before@.emit(op)
    }

    /// Whether this is `before` with more instructions.
    pub open spec fn extended(&self, before: InstrSeqBuilder, ops: Seq<Op>) -> bool {
        &&& self.seq == before.seq
        &&& code_arena(self.func) == code_arena(before.func)
        &&& self@ == before@.emit_all(ops)
    }

    /// Writing to the body of a function.
    pub fn new(func: FunctionBuilder) -> (builder: InstrSeqBuilder)
        requires
            function_code(func).blocks.len() > 0,
        ensures
            builder.wf(),
            builder.func == func,
            builder@ == (CodeView { function: function_code(func), block: 0 }),
    {
        let seq = body_of(&func);
        InstrSeqBuilder { func, seq }
    }

    /// Adds an empty instruction sequence and writes to it from here on.
    pub(crate) fn enter_block(&mut self, ty: InstrSeqType) -> (block: InstrSeqId)
        requires
            old(self).wf(),
        ensures
            final(self).wf(),
            final(self).grew_from(*old(self)),
            final(self).seq == block,
            final(self)@ == old(self)@.enter_block(block_results(ty)),
    {
        proof {
            lemma_new_block_keeps_ops(
                self@.function.blocks,
                BlockCode::empty(block_results(ty)),
            );
        }
        let block = dangling_block(&mut self.func, ty);
        self.seq = block;
        block
    }

    /// Pushes a constant.
    ///
    /// Trusted: `walrus::InstrSeqBuilder::i32_const` puts that instruction at the end of the
    /// sequence and changes nothing else.
    #[verifier::external_body]
    pub(crate) fn i32_const(&mut self, value: i32)
        requires
            old(self).wf(),
        ensures
            final(self).appended(*old(self), Op::I32Const(value)),
    {
        self.func.instr_seq(self.seq).i32_const(value);
    }

    /// Pushes a constant.
    ///
    /// Trusted: `walrus::InstrSeqBuilder::i64_const` puts that instruction at the end of the
    /// sequence and changes nothing else.
    #[verifier::external_body]
    pub(crate) fn i64_const(&mut self, value: i64)
        requires
            old(self).wf(),
        ensures
            final(self).appended(*old(self), Op::I64Const(value)),
    {
        self.func.instr_seq(self.seq).i64_const(value);
    }

    /// Pushes the value of a local.
    ///
    /// Trusted: `walrus::InstrSeqBuilder::local_get` puts that instruction at the end of the
    /// sequence and changes nothing else.
    #[verifier::external_body]
    pub(crate) fn local_get(&mut self, local: LocalId)
        requires
            old(self).wf(),
        ensures
            final(self).appended(*old(self), Op::LocalGet(local_index(local))),
    {
        self.func.instr_seq(self.seq).local_get(local);
    }

    /// Pops a value into a local.
    ///
    /// Trusted: `walrus::InstrSeqBuilder::local_set` puts that instruction at the end of the
    /// sequence and changes nothing else.
    #[verifier::external_body]
    pub(crate) fn local_set(&mut self, local: LocalId)
        requires
            old(self).wf(),
        ensures
            final(self).appended(*old(self), Op::LocalSet(local_index(local))),
    {
        self.func.instr_seq(self.seq).local_set(local);
    }

    /// Copies the top of the stack into a local.
    ///
    /// Trusted: `walrus::InstrSeqBuilder::local_tee` puts that instruction at the end of the
    /// sequence and changes nothing else.
    #[verifier::external_body]
    pub(crate) fn local_tee(&mut self, local: LocalId)
        requires
            old(self).wf(),
        ensures
            final(self).appended(*old(self), Op::LocalTee(local_index(local))),
    {
        self.func.instr_seq(self.seq).local_tee(local);
    }

    /// Pushes the value of a global.
    ///
    /// Trusted: `walrus::InstrSeqBuilder::global_get` puts that instruction at the end of the
    /// sequence and changes nothing else.
    #[verifier::external_body]
    pub(crate) fn global_get(&mut self, global: GlobalId)
        requires
            old(self).wf(),
        ensures
            final(self).appended(*old(self), Op::GlobalGet(global_index(global))),
    {
        self.func.instr_seq(self.seq).global_get(global);
    }

    /// Pops a value into a global.
    ///
    /// Trusted: `walrus::InstrSeqBuilder::global_set` puts that instruction at the end of the
    /// sequence and changes nothing else.
    #[verifier::external_body]
    pub(crate) fn global_set(&mut self, global: GlobalId)
        requires
            old(self).wf(),
        ensures
            final(self).appended(*old(self), Op::GlobalSet(global_index(global))),
    {
        self.func.instr_seq(self.seq).global_set(global);
    }

    /// Calls a function.
    ///
    /// Trusted: `walrus::InstrSeqBuilder::call` puts that instruction at the end of the
    /// sequence and changes nothing else.
    #[verifier::external_body]
    pub(crate) fn call(&mut self, function: FunctionId)
        requires
            old(self).wf(),
        ensures
            final(self).appended(*old(self), Op::Call(function_index(function))),
    {
        self.func.instr_seq(self.seq).call(function);
    }

    /// Adds the two `i32` values on the top of the stack.
    ///
    /// Trusted: `walrus::InstrSeqBuilder::binop` puts that instruction at the end of the
    /// sequence and changes nothing else.
    #[verifier::external_body]
    pub(crate) fn i32_add(&mut self)
        requires
            old(self).wf(),
        ensures
            final(self).appended(*old(self), Op::I32Add),
    {
        self.func.instr_seq(self.seq).binop(BinaryOp::I32Add);
    }

    /// Widens the `i32` on the top of the stack, taken as unsigned.
    ///
    /// Trusted: `walrus::InstrSeqBuilder::unop` puts that instruction at the end of the
    /// sequence and changes nothing else.
    #[verifier::external_body]
    pub(crate) fn i64_extend_u_i32(&mut self)
        requires
            old(self).wf(),
        ensures
            final(self).appended(*old(self), Op::I64ExtendUI32),
    {
        self.func.instr_seq(self.seq).unop(UnaryOp::I64ExtendUI32);
    }

    /// Drops the top of the stack.
    ///
    /// Trusted: `walrus::InstrSeqBuilder::drop` puts that instruction at the end of the
    /// sequence and changes nothing else.
    #[verifier::external_body]
    pub(crate) fn drop(&mut self)
        requires
            old(self).wf(),
        ensures
            final(self).appended(*old(self), Op::Drop),
    {
        self.func.instr_seq(self.seq).drop();
    }

    /// Traps.
    ///
    /// Trusted: `walrus::InstrSeqBuilder::unreachable` puts that instruction at the end of the
    /// sequence and changes nothing else.
    #[verifier::external_body]
    pub(crate) fn unreachable(&mut self)
        requires
            old(self).wf(),
        ensures
            final(self).appended(*old(self), Op::Unreachable),
    {
        self.func.instr_seq(self.seq).unreachable();
    }

    /// Reads an `i32` at the address on the stack plus `offset`.
    ///
    /// Trusted: `walrus::InstrSeqBuilder::load` puts that instruction at the end of the
    /// sequence and changes nothing else.
    #[verifier::external_body]
    pub(crate) fn i32_load(&mut self, memory: MemoryId, align: u32, offset: u32)
        requires
            old(self).wf(),
        ensures
            final(self).appended(
                *old(self),
                Op::Load {
                    memory: memory_index(memory),
                    ty: WasmType::I32,
                    align: align as nat,
                    offset: offset as nat,
                },
            ),
    {
        let kind = LoadKind::I32 { atomic: false };
        self.func.instr_seq(self.seq).load(memory, kind, MemArg { align, offset });
    }

    /// Reads an `i64` at the address on the stack plus `offset`.
    ///
    /// Trusted: `walrus::InstrSeqBuilder::load` puts that instruction at the end of the
    /// sequence and changes nothing else.
    #[verifier::external_body]
    pub(crate) fn i64_load(&mut self, memory: MemoryId, align: u32, offset: u32)
        requires
            old(self).wf(),
        ensures
            final(self).appended(
                *old(self),
                Op::Load {
                    memory: memory_index(memory),
                    ty: WasmType::I64,
                    align: align as nat,
                    offset: offset as nat,
                },
            ),
    {
        let kind = LoadKind::I64 { atomic: false };
        self.func.instr_seq(self.seq).load(memory, kind, MemArg { align, offset });
    }

    /// Writes an `i32` at the address on the stack plus `offset`.
    ///
    /// Trusted: `walrus::InstrSeqBuilder::store` puts that instruction at the end of the
    /// sequence and changes nothing else.
    #[verifier::external_body]
    pub(crate) fn i32_store(&mut self, memory: MemoryId, align: u32, offset: u32)
        requires
            old(self).wf(),
        ensures
            final(self).appended(
                *old(self),
                Op::Store {
                    memory: memory_index(memory),
                    ty: WasmType::I32,
                    align: align as nat,
                    offset: offset as nat,
                },
            ),
    {
        let kind = StoreKind::I32 { atomic: false };
        self.func.instr_seq(self.seq).store(memory, kind, MemArg { align, offset });
    }

    /// Writes an `i64` at the address on the stack plus `offset`.
    ///
    /// Trusted: `walrus::InstrSeqBuilder::store` puts that instruction at the end of the
    /// sequence and changes nothing else.
    #[verifier::external_body]
    pub(crate) fn i64_store(&mut self, memory: MemoryId, align: u32, offset: u32)
        requires
            old(self).wf(),
        ensures
            final(self).appended(
                *old(self),
                Op::Store {
                    memory: memory_index(memory),
                    ty: WasmType::I64,
                    align: align as nat,
                    offset: offset as nat,
                },
            ),
    {
        let kind = StoreKind::I64 { atomic: false };
        self.func.instr_seq(self.seq).store(memory, kind, MemArg { align, offset });
    }

    /// Copies bytes from one memory to another.
    ///
    /// Trusted: `walrus::InstrSeqBuilder::memory_copy` puts that instruction at the end of the
    /// sequence and changes nothing else.
    #[verifier::external_body]
    pub(crate) fn memory_copy(&mut self, source: MemoryId, destination: MemoryId)
        requires
            old(self).wf(),
        ensures
            final(self).appended(*old(self), Op::MemoryCopy {
                    source: memory_index(source),
                    destination: memory_index(destination),
                }),
    {
        self.func.instr_seq(self.seq).memory_copy(source, destination);
    }

    /// Runs an instruction sequence.
    ///
    /// Trusted: `walrus::InstrSeqBuilder::instr` puts that instruction at the end of the
    /// sequence and changes nothing else.
    #[verifier::external_body]
    pub(crate) fn block(&mut self, block: InstrSeqId)
        requires
            old(self).wf(),
        ensures
            final(self).appended(*old(self), Op::Block(seq_index(block))),
    {
        self.func.instr_seq(self.seq).instr(Block { seq: block });
    }

    /// Leaves the block that runs an instruction sequence.
    ///
    /// Trusted: `walrus::InstrSeqBuilder::instr` puts that instruction at the end of the
    /// sequence and changes nothing else.
    #[verifier::external_body]
    pub(crate) fn br(&mut self, block: InstrSeqId)
        requires
            old(self).wf(),
        ensures
            final(self).appended(*old(self), Op::Br(seq_index(block))),
    {
        self.func.instr_seq(self.seq).instr(Br { block });
    }

    /// Pops a value and runs the first sequence where it is not zero, else the second.
    ///
    /// Trusted: `walrus::InstrSeqBuilder::instr` puts that instruction at the end of the
    /// sequence and changes nothing else.
    #[verifier::external_body]
    pub(crate) fn if_else(&mut self, consequent: InstrSeqId, alternative: InstrSeqId)
        requires
            old(self).wf(),
        ensures
            final(self).appended(*old(self), Op::IfElse {
                    consequent: seq_index(consequent),
                    alternative: seq_index(alternative),
                }),
    {
        self.func.instr_seq(self.seq).instr(IfElse { consequent, alternative });
    }
}

} // verus!

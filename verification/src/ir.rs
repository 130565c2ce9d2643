//! A mathematical model of the WebAssembly that is being built: value types,
//! instructions, functions and modules. Locals, globals, memories, functions and
//! instruction sequences are named by their position in the list that holds them.
use vstd::prelude::*;

verus! {

/// A WebAssembly value type.
#[derive(Debug, Clone, Copy, PartialEq, Eq, Structural)]
pub enum WasmType {
    I32,
    I64,
    F32,
    F64,
    V128,
    Externref,
    Funcref,
}

/// An instruction.
pub enum Op {
    I32Const(i32),
    I64Const(i64),
    LocalGet(nat),
    LocalSet(nat),
    LocalTee(nat),
    GlobalGet(nat),
    GlobalSet(nat),
    Call(nat),
    I32Add,
    I64ExtendUI32,
    Drop,
    Unreachable,
    /// Read a value of type `ty` at the address on the stack plus `offset`.
    Load { memory: nat, ty: WasmType, align: nat, offset: nat },
    /// Write a value of type `ty` at the address under it on the stack plus `offset`.
    Store { memory: nat, ty: WasmType, align: nat, offset: nat },
    MemoryCopy { source: nat, destination: nat },
    /// Run an instruction sequence.
    Block(nat),
    /// Leave the block that runs an instruction sequence.
    Br(nat),
    IfElse { consequent: nat, alternative: nat },
    /// Run an instruction sequence, and again where something leaves the block that runs
    /// it.
    Loop(nat),
    /// Pop a value and leave a block where it is not zero.
    BrIf(nat),
    /// Pop a number and leave the block at that position, or the last one.
    BrTable { blocks: Seq<nat>, default: nat },
    /// Leave the function.
    Return,
    /// Any instruction that none of the others is. It writes no local, and where it does
    /// not trap the next instruction runs after it. The number tells such instructions
    /// apart.
    Other(int),
}

/// The list of no instructions.
pub open spec fn no_ops() -> Seq<Op> {
    Seq::empty()
}

/// An instruction sequence: what it leaves on the stack, and its instructions.
#[verifier::ext_equal]
pub struct BlockCode {
    pub results: Seq<WasmType>,
    pub ops: Seq<Op>,
}

impl BlockCode {
    /// The sequence with no instruction in it.
    pub open spec fn empty(results: Seq<WasmType>) -> BlockCode {
        BlockCode { results, ops: Seq::empty() }
    }
}

/// A function while it is built: its type and its instruction sequences, the
/// first of which is its body.
#[verifier::ext_equal]
pub struct FunctionCode {
    pub name: Option<Seq<char>>,
    pub params: Seq<WasmType>,
    pub results: Seq<WasmType>,
    pub blocks: Seq<BlockCode>,
}

impl FunctionCode {
    /// A function without a name whose body is empty.
    pub open spec fn empty(params: Seq<WasmType>, results: Seq<WasmType>) -> FunctionCode {
        FunctionCode { name: None, params, results, blocks: seq![BlockCode::empty(results)] }
    }

    /// The function with `ops` at the end of one of its sequences.
    pub open spec fn append(self, block: nat, ops: Seq<Op>) -> FunctionCode {
        let code = self.blocks[block as int];
        FunctionCode {
            blocks: self.blocks.update(
                block as int,
                BlockCode { ops: code.ops + ops, ..code },
            ),
            ..self
        }
    }

    /// Whether the function has the name and the type of another.
    pub open spec fn has_header_of(self, other: FunctionCode) -> bool {
        &&& self.name == other.name
        &&& self.params == other.params
        &&& self.results == other.results
    }

    /// The function with one more instruction sequence, which is empty.
    pub open spec fn add_block(self, results: Seq<WasmType>) -> FunctionCode {
        FunctionCode { blocks: self.blocks.push(BlockCode::empty(results)), ..self }
    }
}

/// A function while it is built, and the instruction sequence that is written to.
#[verifier::ext_equal]
pub struct CodeView {
    pub function: FunctionCode,
    pub block: nat,
}

impl CodeView {
    /// Whether the sequence that is written to is one of the function's.
    pub open spec fn wf(self) -> bool {
        self.block < self.function.blocks.len()
    }

    /// One instruction more.
    #[verifier::opaque]
    pub open spec fn emit(self, op: Op) -> CodeView {
        CodeView { function: self.function.append(self.block, seq![op]), ..self }
    }

    /// More instructions.
    #[verifier::opaque]
    pub open spec fn emit_all(self, ops: Seq<Op>) -> CodeView {
        CodeView { function: self.function.append(self.block, ops), ..self }
    }

    /// A new empty sequence, which is written to from here on.
    pub open spec fn enter_block(self, results: Seq<WasmType>) -> CodeView {
        CodeView {
            function: self.function.add_block(results),
            block: self.function.blocks.len(),
        }
    }

    /// From here on, writing to another sequence.
    pub open spec fn at_block(self, block: nat) -> CodeView {
        CodeView { block, ..self }
    }

    /// Whether this code can come from `before` by adding to it: the function has the same
    /// name and type, and every sequence of `before` is still there, with what it held.
    pub open spec fn grew_from(self, before: CodeView) -> bool {
        &&& self.function.has_header_of(before.function)
        &&& before.function.blocks.len() <= self.function.blocks.len()
        &&& keeps_ops(before.function.blocks, self.function.blocks)
    }
}

/// Whether each sequence of a list is still there in another one: it leaves the same types,
/// and its instructions come first.
#[verifier::opaque]
pub open spec fn keeps_ops(before: Seq<BlockCode>, after: Seq<BlockCode>) -> bool {
    &&& before.len() <= after.len()
    &&& forall|b: int|
        0 <= b < before.len() ==> (#[trigger] after[b]).results == before[b].results
            && before[b].ops.is_prefix_of(after[b].ops)
}

/// A list keeps its own sequences.
pub broadcast proof fn lemma_keeps_own_ops(blocks: Seq<BlockCode>)
    ensures
        #[trigger] keeps_ops(blocks, blocks),
{
    reveal(keeps_ops);
}

/// What is kept twice is kept.
pub broadcast proof fn lemma_keeps_ops_twice(
    first: Seq<BlockCode>,
    second: Seq<BlockCode>,
    third: Seq<BlockCode>,
)
    requires
        #[trigger] keeps_ops(first, second),
        #[trigger] keeps_ops(second, third),
    ensures
        keeps_ops(first, third),
{
    reveal(keeps_ops);
    assert forall|b: int| 0 <= b < first.len() implies (#[trigger] third[b]).results
        == first[b].results && first[b].ops.is_prefix_of(third[b].ops) by {
        assert(second[b].results == first[b].results);
        assert(first[b].ops =~= third[b].ops.subrange(0, first[b].ops.len() as int)) by {
            assert(forall|i: int|
                0 <= i < first[b].ops.len() ==> first[b].ops[i] == second[b].ops.subrange(
                    0,
                    first[b].ops.len() as int,
                )[i]);
            assert(forall|i: int|
                0 <= i < second[b].ops.len() ==> second[b].ops[i] == third[b].ops.subrange(
                    0,
                    second[b].ops.len() as int,
                )[i]);
        }
    }
}

/// A new sequence leaves the others alone.
pub proof fn lemma_new_block_keeps_ops(blocks: Seq<BlockCode>, block: BlockCode)
    ensures
        keeps_ops(blocks, blocks.push(block)),
{
    reveal(keeps_ops);
}

/// An instruction more changes neither which sequence is written to, nor how many there
/// are and what they hold, nor the name and the type of the function.
pub broadcast proof fn lemma_emit_keeps_blocks(code: CodeView, op: Op)
    requires
        code.wf(),
    ensures
        #![trigger code.emit(op)]
        code.emit(op).block == code.block,
        code.emit(op).function.has_header_of(code.function),
        code.emit(op).function.blocks.len() == code.function.blocks.len(),
        keeps_ops(code.function.blocks, code.emit(op).function.blocks),
{
    reveal(CodeView::emit);
    reveal(keeps_ops);
}

/// More instructions change neither which sequence is written to, nor how many there are
/// and what they hold, nor the name and the type of the function.
pub broadcast proof fn lemma_emit_all_keeps_blocks(code: CodeView, ops: Seq<Op>)
    requires
        code.wf(),
    ensures
        #![trigger code.emit_all(ops)]
        code.emit_all(ops).block == code.block,
        code.emit_all(ops).function.has_header_of(code.function),
        code.emit_all(ops).function.blocks.len() == code.function.blocks.len(),
        keeps_ops(code.function.blocks, code.emit_all(ops).function.blocks),
{
    reveal(CodeView::emit_all);
    reveal(keeps_ops);
}

/// Emitting a list of instructions and then one more.
pub broadcast proof fn lemma_emit_all_then_emit(code: CodeView, ops: Seq<Op>, op: Op)
    requires
        code.wf(),
    ensures
        #[trigger] code.emit_all(ops).emit(op) == code.emit_all(ops.push(op)),
{
    reveal(CodeView::emit);
    reveal(CodeView::emit_all);
    let left = code.emit_all(ops).emit(op);
    let right = code.emit_all(ops.push(op));
    let block = code.block as int;
    assert(left.function.blocks[block].ops =~= right.function.blocks[block].ops);
    assert(left.function.blocks =~= right.function.blocks);
}

/// Emitting two lists of instructions one after the other.
pub proof fn lemma_emit_all_twice(code: CodeView, first: Seq<Op>, second: Seq<Op>)
    requires
        code.wf(),
    ensures
        code.emit_all(first).emit_all(second) == code.emit_all(first + second),
{
    reveal(CodeView::emit_all);
    let left = code.emit_all(first).emit_all(second);
    let right = code.emit_all(first + second);
    let block = code.block as int;
    assert(left.function.blocks[block].ops =~= right.function.blocks[block].ops);
    assert(left.function.blocks =~= right.function.blocks);
}

/// Emitting nothing.
pub proof fn lemma_emit_all_nothing(code: CodeView)
    requires
        code.wf(),
    ensures
        code.emit_all(Seq::empty()) == code,
{
    reveal(CodeView::emit_all);
    let block = code.function.blocks[code.block as int];
    assert(block.ops + Seq::empty() =~= block.ops);
    assert(code.emit_all(Seq::empty()).function.blocks =~= code.function.blocks);
}

/// A function of a module. `built` holds its code, where it was built here, and
/// the locals that are its parameters.
pub struct FunctionView {
    pub name: Option<Seq<char>>,
    pub built: Option<(FunctionCode, Seq<nat>)>,
}

/// A memory of a module: where it is in the list of all memories, deleted ones
/// too, and how many pages it has at first.
pub struct MemoryView {
    pub index: nat,
    pub initial: u32,
}

/// A global of a module: where it is in the list of all globals, deleted ones
/// too, its name, and its first value where that is a constant `i32`.
pub struct GlobalView {
    pub index: nat,
    pub name: Option<Seq<char>>,
    pub init: Option<i32>,
}

/// Bytes that are in a memory from the start.
pub struct DataSegment {
    pub memory: nat,
    pub offset: u32,
    pub bytes: Seq<u8>,
}

/// A module: the types of the locals of all its functions, its functions, its
/// memories and globals that are not deleted, its data segments that go to a fixed
/// place, and its exported functions.
#[verifier::ext_equal]
pub struct ModuleView {
    pub locals: Seq<WasmType>,
    pub functions: Seq<FunctionView>,
    pub memories: Seq<MemoryView>,
    pub globals: Seq<GlobalView>,
    pub data: Seq<DataSegment>,
    pub exports: Seq<(Seq<char>, nat)>,
}

/// The first function of a list that has the given name.
pub open spec fn first_named(functions: Seq<FunctionView>, name: Seq<char>) -> Option<nat>
    decreases functions.len(),
{
    if functions.len() == 0 {
        None
    } else {
        match first_named(functions.drop_last(), name) {
            Some(index) => Some(index),
            None => if functions.last().name == Some(name) {
                Some((functions.len() - 1) as nat)
            } else {
                None
            },
        }
    }
}

impl ModuleView {
    pub open spec fn add_local(self, ty: WasmType) -> ModuleView {
        ModuleView { locals: self.locals.push(ty), ..self }
    }

    pub open spec fn add_locals(self, types: Seq<WasmType>) -> ModuleView {
        ModuleView { locals: self.locals + types, ..self }
    }

    pub open spec fn function_named(self, name: Seq<char>) -> Option<nat> {
        first_named(self.functions, name)
    }

    pub open spec fn has_function(self, name: Seq<char>) -> bool {
        self.function_named(name) is Some
    }

    /// Where the first function with the given name is.
    pub open spec fn function(self, name: Seq<char>) -> nat {
        self.function_named(name)->0
    }

    pub open spec fn has_global(self, index: nat) -> bool {
        exists|i: int| 0 <= i < self.globals.len() && (#[trigger] self.globals[i]).index == index
    }

    /// The module with another first value of a global.
    pub open spec fn with_global(self, index: nat, init: i32) -> ModuleView {
        ModuleView {
            globals: self.globals.map_values(
                |global: GlobalView|
                    if global.index == index {
                        GlobalView { init: Some(init), ..global }
                    } else {
                        global
                    },
            ),
            ..self
        }
    }

    /// The module with another number of pages in its first memory.
    pub open spec fn with_pages(self, pages: u32) -> ModuleView {
        ModuleView {
            memories: self.memories.update(0, MemoryView { initial: pages, ..self.memories[0] }),
            ..self
        }
    }

    pub open spec fn add_data(self, segment: DataSegment) -> ModuleView {
        ModuleView { data: self.data.push(segment), ..self }
    }

    /// The module with one more function, built from `code`.
    pub open spec fn add_function(self, code: FunctionCode, params: Seq<nat>) -> ModuleView {
        ModuleView {
            functions: self.functions.push(
                FunctionView { name: code.name, built: Some((code, params)) },
            ),
            ..self
        }
    }

    pub open spec fn add_export(self, name: Seq<char>, function: nat) -> ModuleView {
        ModuleView { exports: self.exports.push((name, function)), ..self }
    }
}

/// Adding locals in two steps.
pub proof fn lemma_add_locals_twice(
    module: ModuleView,
    first: Seq<WasmType>,
    second: Seq<WasmType>,
)
    ensures
        module.add_locals(first).add_locals(second) == module.add_locals(first + second),
{
    assert(module.locals + first + second =~= module.locals + (first + second));
}

/// Adding a list of locals and then one more.
pub broadcast proof fn lemma_add_locals_then_one(
    module: ModuleView,
    types: Seq<WasmType>,
    ty: WasmType,
)
    ensures
        #[trigger] module.add_locals(types).add_local(ty) == module.add_locals(types.push(ty)),
{
    assert((module.locals + types).push(ty) =~= module.locals + types.push(ty));
}

/// Adding no local.
pub proof fn lemma_add_locals_nothing(module: ModuleView)
    ensures
        module.add_locals(Seq::empty()) == module,
{
    assert(module.locals + Seq::empty() =~= module.locals);
}

pub broadcast group group_emit {
    lemma_emit_keeps_blocks,
    lemma_emit_all_keeps_blocks,
    lemma_emit_all_then_emit,
    lemma_add_locals_then_one,
    lemma_keeps_own_ops,
    lemma_keeps_ops_twice,
}

} // verus!

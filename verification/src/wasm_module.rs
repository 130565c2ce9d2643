//! Calls into `walrus`: reading a module, adding to it, and building functions.
use id_arena::Id;
use vstd::prelude::*;
use walrus::ir::{InstrSeqId, InstrSeqType};
use walrus::{FunctionBuilder, FunctionId, GlobalId, LocalId, MemoryId, Module};

use crate::ir::{DataSegment, FunctionCode, ModuleView, WasmType};

verus! {

/// `id_arena::Id`, the type of every identifier in a `walrus` module.
#[verifier::external_type_specification]
#[verifier::external_body]
#[verifier::reject_recursive_types(T)]
pub struct ExId<T>(Id<T>);

/// A `walrus` module.
#[verifier::external_type_specification]
#[verifier::external_body]
pub struct ExModule(walrus::Module);

/// A `walrus` function that is being built.
#[verifier::external_type_specification]
#[verifier::external_body]
pub struct ExFunctionBuilder(walrus::FunctionBuilder);

/// The type of a `walrus` instruction sequence.
#[verifier::external_type_specification]
#[verifier::external_body]
pub struct ExInstrSeqType(walrus::ir::InstrSeqType);

/// A value type of `walrus`.
#[verifier::external_type_specification]
#[verifier::external_body]
pub struct ExValType(walrus::ValType);

/// What a `LocalId` identifies.
#[verifier::external_type_specification]
#[verifier::external_body]
pub struct ExLocal(walrus::ir::Local);

/// What a `GlobalId` identifies.
#[verifier::external_type_specification]
#[verifier::external_body]
pub struct ExGlobal(walrus::Global);

/// What a `MemoryId` identifies.
#[verifier::external_type_specification]
#[verifier::external_body]
pub struct ExMemory(walrus::Memory);

/// What a `FunctionId` identifies.
#[verifier::external_type_specification]
#[verifier::external_body]
pub struct ExFunction(walrus::Function);

/// What an `InstrSeqId` identifies.
#[verifier::external_type_specification]
#[verifier::external_body]
pub struct ExInstrSeq(walrus::ir::InstrSeq);

/// Part of what an `InstrSeq` holds.
#[verifier::external_type_specification]
#[verifier::external_body]
pub struct ExInstrLocId(walrus::ir::InstrLocId);

/// Part of what an `InstrSeq` holds.
#[verifier::external_type_specification]
#[verifier::external_body]
pub struct ExInstr(walrus::ir::Instr);

/// What a module holds.
pub uninterp spec fn module_contents(module: Module) -> ModuleView;

/// Which arena holds the globals of a module. An identifier is good only in the
/// arena that gave it out.
pub uninterp spec fn globals_arena(module: Module) -> int;

/// What the module that the bytes encode holds, where they encode one.
pub uninterp spec fn parsed_module(bytes: Seq<u8>) -> Option<ModuleView>;

/// What has been built of a function. Instructions that the library does not write itself
/// are in it too.
pub uninterp spec fn function_code(function: FunctionBuilder) -> FunctionCode;

/// Which arena holds the instruction sequences of a function that is being built.
pub uninterp spec fn code_arena(function: FunctionBuilder) -> int;

/// Where a local is in the list of all locals.
pub uninterp spec fn local_index(local: LocalId) -> nat;

/// Where a global is in the list of all globals.
pub uninterp spec fn global_index(global: GlobalId) -> nat;

/// Which arena a global's identifier comes from.
pub uninterp spec fn global_arena(global: GlobalId) -> int;

/// Where a memory is in the list of all memories.
pub uninterp spec fn memory_index(memory: MemoryId) -> nat;

/// Where a function is in the list of all functions.
pub uninterp spec fn function_index(function: FunctionId) -> nat;

/// Where an instruction sequence is in its function's list.
pub uninterp spec fn seq_index(block: InstrSeqId) -> nat;

/// Which arena an instruction sequence's identifier comes from.
pub uninterp spec fn seq_arena(block: InstrSeqId) -> int;

/// Which value type a value type of `walrus` is.
pub uninterp spec fn wasm_type(ty: walrus::ValType) -> WasmType;

/// What an instruction sequence of the given type leaves on the stack.
pub uninterp spec fn block_results(ty: InstrSeqType) -> Seq<WasmType>;

/// Where the locals of a list are.
pub open spec fn local_indices(locals: Seq<LocalId>) -> Seq<nat> {
    locals.map_values(|local: LocalId| local_index(local))
}

/// Which value types the value types of a `walrus` list are.
pub open spec fn wasm_types(types: Seq<walrus::ValType>) -> Seq<WasmType> {
    types.map_values(|ty: walrus::ValType| wasm_type(ty))
}

/// The `walrus` value type of the same name.
///
/// Trusted: the variants of `walrus::ValType` are the value types of WebAssembly.
#[verifier::external_body]
fn walrus_type(ty: WasmType) -> (result: walrus::ValType)
    ensures
        wasm_type(result) == ty,
{
    match ty {
        WasmType::I32 => walrus::ValType::I32,
        WasmType::I64 => walrus::ValType::I64,
        WasmType::F32 => walrus::ValType::F32,
        WasmType::F64 => walrus::ValType::F64,
        WasmType::V128 => walrus::ValType::V128,
        WasmType::Externref => walrus::ValType::Externref,
        WasmType::Funcref => walrus::ValType::Funcref,
    }
}

/// The `walrus` value types of the same names.
fn walrus_types(types: &[WasmType]) -> (result: Vec<walrus::ValType>)
    ensures
        wasm_types(result@) == types@,
{
    let mut result: Vec<walrus::ValType> = Vec::new();
    let mut i: usize = 0;
    while i < types.len()
        invariant
            i <= types@.len(),
            wasm_types(result@) == types@.take(i as int),
        decreases types@.len() - i,
    {
        let ghost before = result@;
        result.push(walrus_type(types[i]));
        assert(wasm_types(result@) =~= wasm_types(before).push(types@[i as int]));
        assert(types@.take(i + 1) =~= types@.take(i as int).push(types@[i as int]));
        i += 1;
    }
    assert(types@.take(i as int) =~= types@);
    result
}

/// Reads a module in the binary format.
///
/// Trusted: `walrus::Module::from_buffer` depends on the bytes alone; the error that
/// it gives for bytes that are no module is dropped here. It keeps the position of each
/// instruction as a `u32` that must not be `u32::MAX`, so there may be no byte at that
/// position.
#[verifier::external_body]
pub(crate) fn parse_module(bytes: &[u8]) -> (result: Option<Module>)
    requires
        bytes@.len() <= u32::MAX,
    ensures
        match result {
            Some(module) => parsed_module(bytes@) == Some(module_contents(module)),
            None => parsed_module(bytes@) is None,
        },
{
    Module::from_buffer(bytes).ok()
}

/// Adds a local.
///
/// Trusted: `walrus::ModuleLocals::add` puts a local of the given type at the end of
/// the list of locals and changes nothing else.
#[verifier::external_body]
fn push_local(module: &mut Module, ty: walrus::ValType) -> (local: LocalId)
    ensures
        module_contents(*final(module)) == module_contents(*old(module)).add_local(wasm_type(ty)),
        globals_arena(*final(module)) == globals_arena(*old(module)),
        local_index(local) == module_contents(*old(module)).locals.len(),
{
    module.locals.add(ty)
}

/// Adds a local of the given type to the module.
pub fn add_local(module: &mut Module, ty: WasmType) -> (local: LocalId)
    ensures
        module_contents(*final(module)) == module_contents(*old(module)).add_local(ty),
        globals_arena(*final(module)) == globals_arena(*old(module)),
        local_index(local) == module_contents(*old(module)).locals.len(),
{
    push_local(module, walrus_type(ty))
}

/// Adds bytes that are in a memory from the start.
///
/// Trusted: `walrus::ModuleData::add` puts an active segment at the end of the list of
/// segments and changes nothing else.
#[verifier::external_body]
pub(crate) fn add_data(module: &mut Module, memory: MemoryId, offset: u32, bytes: Vec<u8>)
    ensures
        module_contents(*final(module)) == module_contents(*old(module)).add_data(
            DataSegment { memory: memory_index(memory), offset, bytes: bytes@ },
        ),
        globals_arena(*final(module)) == globals_arena(*old(module)),
{
    let location = walrus::ActiveDataLocation::Absolute(offset);
    let segment = walrus::ActiveData { memory, location };
    module.data.add(walrus::DataKind::Active(segment), bytes);
}

/// The first memory.
///
/// Trusted: `walrus::ModuleMemories::iter` walks the memories in the order of the list.
#[verifier::external_body]
pub(crate) fn first_memory(module: &Module) -> (result: Option<MemoryId>)
    ensures
        match result {
            Some(memory) => module_contents(*module).memories.len() > 0 && memory_index(memory)
                == module_contents(*module).memories[0].index,
            None => module_contents(*module).memories.len() == 0,
        },
{
    module.memories.iter().next().map(|memory| memory.id())
}

/// Sets the number of pages that the first memory has at first.
///
/// Trusted: `walrus::ModuleMemories::iter_mut` walks the memories in the order of the
/// list; the assignment changes the first one's page count and nothing else.
#[verifier::external_body]
pub(crate) fn set_first_memory_pages(module: &mut Module, pages: u32)
    requires
        module_contents(*old(module)).memories.len() > 0,
    ensures
        module_contents(*final(module)) == module_contents(*old(module)).with_pages(pages),
        globals_arena(*final(module)) == globals_arena(*old(module)),
{
    if let Some(memory) = module.memories.iter_mut().next() {
        memory.initial = pages;
    }
}

/// The globals of a module, with their names.
///
/// Trusted: `walrus::ModuleGlobals::iter` walks the globals in the order of the list.
#[verifier::external_body]
pub(crate) fn list_globals(module: &Module) -> (result: Vec<(GlobalId, Option<String>)>)
    ensures
        result@.len() == module_contents(*module).globals.len(),
        forall|i: int|
            0 <= i < result@.len() ==> {
                let global = module_contents(*module).globals[i];
                &&& global_index((#[trigger] result@[i]).0) == global.index
                &&& global_arena(result@[i].0) == globals_arena(*module)
                &&& match result@[i].1 {
                    Some(name) => global.name == Some(name@),
                    None => global.name is None,
                }
            },
{
    module.globals.iter().map(|global| (global.id(), global.name.clone())).collect()
}

/// Sets the first value of a global.
///
/// Trusted: `walrus::ModuleGlobals::get_mut` gives the global of that identifier, which
/// must be one of the module's; the assignment changes nothing else.
#[verifier::external_body]
pub(crate) fn set_global_init(module: &mut Module, global: GlobalId, value: i32)
    requires
        global_arena(global) == globals_arena(*old(module)),
        module_contents(*old(module)).has_global(global_index(global)),
    ensures
        module_contents(*final(module)) == module_contents(*old(module)).with_global(
            global_index(global),
            value,
        ),
        globals_arena(*final(module)) == globals_arena(*old(module)),
{
    let init = walrus::InitExpr::Value(walrus::ir::Value::I32(value));
    module.globals.get_mut(global).kind = walrus::GlobalKind::Local(init);
}

/// The first function of a name.
///
/// Trusted: `walrus::ModuleFunctions::by_name` returns the first function that has the
/// name.
#[verifier::external_body]
pub(crate) fn function_by_name(module: &Module, name: &str) -> (result: Option<FunctionId>)
    ensures
        match result {
            Some(function) => module_contents(*module).function_named(name@) == Some(
                function_index(function),
            ),
            None => module_contents(*module).function_named(name@) is None,
        },
{
    module.funcs.by_name(name)
}

/// Exports a function.
///
/// Trusted: `walrus::ModuleExports::add` puts an export at the end of the list of
/// exports and changes nothing else.
#[verifier::external_body]
pub(crate) fn add_export(module: &mut Module, name: &str, function: FunctionId)
    ensures
        module_contents(*final(module)) == module_contents(*old(module)).add_export(
            name@,
            function_index(function),
        ),
        globals_arena(*final(module)) == globals_arena(*old(module)),
{
    module.exports.add(name, function);
}

/// Starts to build a function.
///
/// Trusted: `walrus::FunctionBuilder::new` returns a builder without a name whose only
/// instruction sequence is the empty body. Of the module it changes the table of types,
/// which is not part of what `module_contents` says.
#[verifier::external_body]
fn start_function(
    module: &mut Module,
    params: &[walrus::ValType],
    results: &[walrus::ValType],
) -> (function: FunctionBuilder)
    ensures
        function_code(function) == FunctionCode::empty(wasm_types(params@), wasm_types(results@)),
        module_contents(*final(module)) == module_contents(*old(module)),
        globals_arena(*final(module)) == globals_arena(*old(module)),
{
    FunctionBuilder::new(&mut module.types, params, results)
}

/// Starts to build a function that takes and returns values of the given types.
pub fn new_function(module: &mut Module, params: &[WasmType], results: &[WasmType]) -> (function:
    FunctionBuilder)
    ensures
        function_code(function) == FunctionCode::empty(params@, results@),
        module_contents(*final(module)) == module_contents(*old(module)),
        globals_arena(*final(module)) == globals_arena(*old(module)),
{
    let params = walrus_types(params);
    let results = walrus_types(results);
    start_function(module, params.as_slice(), results.as_slice())
}

/// Names a function.
///
/// Trusted: `walrus::FunctionBuilder::name` sets the name and changes nothing else.
#[verifier::external_body]
pub(crate) fn name_function(function: &mut FunctionBuilder, name: String)
    ensures
        function_code(*final(function)) == (FunctionCode {
            name: Some(name@),
            ..function_code(*old(function))
        }),
        code_arena(*final(function)) == code_arena(*old(function)),
{
    function.name(name);
}

/// The body of a function.
///
/// Trusted: `walrus::FunctionBuilder::func_body_id` returns the instruction sequence that
/// the builder started with.
#[verifier::external_body]
pub(crate) fn body_of(function: &FunctionBuilder) -> (block: InstrSeqId)
    ensures
        seq_index(block) == 0,
        seq_arena(block) == code_arena(*function),
{
    function.func_body_id()
}

/// Puts a function into a module.
///
/// Trusted: `walrus::FunctionBuilder::finish` puts the function at the end of the list of
/// functions and changes nothing else.
#[verifier::external_body]
pub(crate) fn finish_function(
    function: FunctionBuilder,
    params: Vec<LocalId>,
    module: &mut Module,
) -> (result: FunctionId)
    ensures
        module_contents(*final(module)) == module_contents(*old(module)).add_function(
            function_code(function),
            local_indices(params@),
        ),
        globals_arena(*final(module)) == globals_arena(*old(module)),
        function_index(result) == module_contents(*old(module)).functions.len(),
{
    function.finish(params, &mut module.funcs)
}

/// The type of an instruction sequence that takes nothing.
///
/// Trusted: `walrus::ir::InstrSeqType::new` returns a type with those results. Of the
/// module it changes the table of types, which is not part of what `module_contents` says.
#[verifier::external_body]
fn make_block_type(module: &mut Module, results: &[walrus::ValType]) -> (ty: InstrSeqType)
    ensures
        block_results(ty) == wasm_types(results@),
        module_contents(*final(module)) == module_contents(*old(module)),
        globals_arena(*final(module)) == globals_arena(*old(module)),
{
    InstrSeqType::new(&mut module.types, &[], results)
}

/// The type of an instruction sequence that takes nothing and leaves values of the
/// given types.
pub fn new_block_type(module: &mut Module, results: &[WasmType]) -> (ty: InstrSeqType)
    ensures
        block_results(ty) == results@,
        module_contents(*final(module)) == module_contents(*old(module)),
        globals_arena(*final(module)) == globals_arena(*old(module)),
{
    let results = walrus_types(results);
    make_block_type(module, results.as_slice())
}

} // verus!

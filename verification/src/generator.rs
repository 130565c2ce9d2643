//! The generator: its state, how it is set up, and what it knows of the contract.
use std::rc::Rc;
use vstd::hash_map::StringHashMap;
use vstd::prelude::*;
use walrus::ir::InstrSeqId;
use walrus::{FunctionId, GlobalId, LocalId, MemoryId, Module};

use crate::analysis::{
    deref_option, AnalysisView, ContractAnalysis, SymbolicExpression,
};
use crate::error::{internal_error, type_error, Failure, GeneratorError};
use crate::ir::{DataSegment, GlobalView, ModuleView, WasmType};
use crate::literal_table::{
    fill, lemma_no_literals_hold, lemma_nothing_fills, literals_hold, LiteralKey, LiteralTable,
};
use crate::layout::SequenceElementType;
use crate::literals::{lemma_nothing_is_quoted, quoted_are_strings};
use crate::types::{share, FunctionType, SequenceSubtype, StringSubtype, TypeSignature};
use crate::wasm_module::{
    add_local, first_memory, function_by_name, function_index, global_arena, global_index,
    globals_arena, list_globals, local_index, local_indices, memory_index, module_contents,
    parse_module, parsed_module, seq_index, set_first_memory_pages,
};

verus! {

broadcast use vstd::std_specs::hash::group_hash_axioms;

/// First free position after the data that the standard library itself defines.
pub const END_OF_STANDARD_DATA: u32 = 1352;

/// The size of a page of memory.
pub const PAGE_SIZE: u64 = 65536;

/// Visits the expressions of a Clarity contract and builds a WebAssembly module as it
/// goes.
pub struct WasmGenerator {
    /// The contract analysis, which contains the expressions and type
    /// information for the contract.
    pub contract_analysis: ContractAnalysis,
    /// The WebAssembly module that is being generated.
    pub module: Module,
    /// Offset of the end of the literal memory.
    pub literal_memory_end: u32,
    /// Global ID of the stack pointer.
    pub stack_pointer: GlobalId,
    /// Map strings saved in the literal memory to their offset.
    pub literal_memory_offset: LiteralTable,
    /// Map constants to an offset in the literal memory.
    pub constants: StringHashMap<u32>,
    /// The current function body block, used for early exit
    pub early_return_block_id: Option<InstrSeqId>,
    /// The return type of the current function.
    pub return_type: Option<Rc<TypeSignature>>,
    /// The types of defined data-vars
    pub datavars_types: StringHashMap<Rc<TypeSignature>>,
    /// The types of (key, value) in defined maps
    pub maps_types: StringHashMap<(Rc<TypeSignature>, Rc<TypeSignature>)>,
    /// The locals for the current function.
    pub bindings: StringHashMap<Vec<LocalId>>,
    /// Size of the current function's stack frame.
    pub frame_size: i32,
    /// How many data segments the standard library has. Those of literals come after them.
    pub standard_segments: Ghost<nat>,
}

/// The mathematical value of a `WasmGenerator`.
#[verifier::ext_equal]
pub struct GeneratorView {
    pub analysis: AnalysisView,
    pub module: ModuleView,
    pub literal_memory_end: u32,
    pub stack_pointer: nat,
    pub literals: Map<LiteralKey, u32>,
    pub constants: Map<Seq<char>, u32>,
    pub early_return_block: Option<nat>,
    pub return_type: Option<Rc<TypeSignature>>,
    pub datavars_types: Map<Seq<char>, Rc<TypeSignature>>,
    pub maps_types: Map<Seq<char>, (Rc<TypeSignature>, Rc<TypeSignature>)>,
    pub bindings: Map<Seq<char>, Seq<nat>>,
    pub frame_size: i32,
    pub standard_segments: nat,
}

/// Where the locals of each binding are.
pub open spec fn bindings_view(bindings: Map<Seq<char>, Vec<LocalId>>) -> Map<
    Seq<char>,
    Seq<nat>,
> {
    bindings.map_values(|locals: Vec<LocalId>| local_indices(locals@))
}

/// The first memory of a module.
pub open spec fn first_memory_index(module: ModuleView) -> Option<nat> {
    if module.memories.len() > 0 {
        Some(module.memories[0].index)
    } else {
        None
    }
}

/// The first global from position `i` on that has the given name.
pub open spec fn global_named(globals: Seq<GlobalView>, name: Seq<char>, i: nat) -> Option<nat>
    decreases globals.len() - i,
{
    if i >= globals.len() {
        None
    } else if globals[i as int].name == Some(name) {
        Some(globals[i as int].index)
    } else {
        global_named(globals, name, i + 1)
    }
}

/// The number of pages that hold a number of bytes.
pub open spec fn pages_for(bytes: nat) -> nat {
    (bytes + PAGE_SIZE as nat - 1) as nat / PAGE_SIZE as nat
}

/// A failure with an internal error.
pub open spec fn internal(reason: Seq<char>) -> Failure {
    Failure::InternalError(reason)
}

impl GeneratorView {
    /// The state in which the generator starts on a contract.
    pub open spec fn initial(
        analysis: AnalysisView,
        standard: ModuleView,
        stack_pointer: nat,
    ) -> GeneratorView {
        GeneratorView {
            analysis,
            module: standard,
            literal_memory_end: END_OF_STANDARD_DATA,
            stack_pointer,
            literals: Map::empty(),
            constants: Map::empty(),
            early_return_block: None,
            return_type: None,
            datavars_types: Map::empty(),
            maps_types: Map::empty(),
            bindings: Map::empty(),
            frame_size: 0,
            standard_segments: standard.data.len(),
        }
    }

    /// The data segments of literals, in the order in which they were added.
    pub open spec fn literal_segments(self) -> Seq<DataSegment> {
        self.module.data.skip(self.standard_segments as int)
    }

    /// Whether the stack pointer is a global of the module, the size of the frame is a
    /// size, the literals fill the literal memory, which comes after the data of the
    /// standard library, one after the other, and every string that is noted is in it.
    pub open spec fn wf(self) -> bool {
        &&& self.module.has_global(self.stack_pointer)
        &&& self.frame_size >= 0
        &&& END_OF_STANDARD_DATA <= self.literal_memory_end
        &&& self.standard_segments <= self.module.data.len()
        &&& fill(
            self.literal_segments(),
            first_memory_index(self.module),
            END_OF_STANDARD_DATA as nat,
            self.literal_memory_end as nat,
        )
        &&& literals_hold(
            self.module.data,
            first_memory_index(self.module),
            self.literal_memory_end,
            self.literals,
        )
    }

    /// Whether this state can come from `before` by visiting something: what was added to
    /// the module is still there, the literal memory has only grown, the strings that were
    /// noted are where they were, and an early return leaves the same block as before, or
    /// stops the contract.
    #[verifier::opaque]
    pub open spec fn grew_from(self, before: GeneratorView) -> bool {
        &&& self.stack_pointer == before.stack_pointer
        &&& self.standard_segments == before.standard_segments
        &&& first_memory_index(self.module) == first_memory_index(before.module)
        &&& before.next_local() <= self.next_local()
        &&& before.module.functions.is_prefix_of(self.module.functions)
        &&& before.module.data.is_prefix_of(self.module.data)
        &&& before.literal_memory_end <= self.literal_memory_end
        &&& forall|key: LiteralKey| #[trigger]
            before.literals.contains_key(key) ==> self.literals.contains_key(key)
                && self.literals[key] == before.literals[key]
        &&& self.early_return_block == before.early_return_block || self.early_return_block is None
    }

    /// The state with another module.
    pub open spec fn with_module(self, module: ModuleView) -> GeneratorView {
        GeneratorView { module, ..self }
    }

    /// The state with one local more in the module.
    pub open spec fn add_local(self, ty: WasmType) -> GeneratorView {
        self.with_module(self.module.add_local(ty))
    }

    /// The state with more locals in the module.
    pub open spec fn add_locals(self, types: Seq<WasmType>) -> GeneratorView {
        self.with_module(self.module.add_locals(types))
    }

    /// Where the next local will be.
    pub open spec fn next_local(self) -> nat {
        self.module.locals.len()
    }

    /// The state with another type for an expression.
    pub open spec fn with_type(
        self,
        expr: SymbolicExpression,
        ty: Rc<TypeSignature>,
    ) -> GeneratorView {
        GeneratorView { analysis: self.analysis.with_type(expr, ty), ..self }
    }
}

impl WasmGenerator {
    pub open spec fn view(&self) -> GeneratorView {
        GeneratorView {
            analysis: self.contract_analysis@,
            module: module_contents(self.module),
            literal_memory_end: self.literal_memory_end,
            stack_pointer: global_index(self.stack_pointer),
            literals: self.literal_memory_offset@,
            constants: self.constants@,
            early_return_block: match self.early_return_block_id {
                Some(block) => Some(seq_index(block)),
                None => None,
            },
            return_type: self.return_type,
            datavars_types: self.datavars_types@,
            maps_types: self.maps_types@,
            bindings: bindings_view(self.bindings@),
            frame_size: self.frame_size,
            standard_segments: self.standard_segments@,
        }
    }

    /// Whether the state is sound, and the stack pointer comes from this very module.
    pub open spec fn wf(&self) -> bool {
        &&& global_arena(self.stack_pointer) == globals_arena(self.module)
        &&& self@.wf()
    }

    /// Starts on a contract, given the standard library that the contract will be linked
    /// with, in the binary format.
    pub fn new(contract_analysis: ContractAnalysis, standard_lib_wasm: &[u8]) -> (result: Result<
        WasmGenerator,
        GeneratorError,
    >)
        ensures
            standard_lib_wasm@.len() > u32::MAX ==> (result matches Err(error) && error@
                == internal("failed to load standard library"@)),
            standard_lib_wasm@.len() <= u32::MAX ==> match parsed_module(standard_lib_wasm@) {
                None => result matches Err(error) && error@ == internal(
                    "failed to load standard library"@,
                ),
                Some(standard) => match global_named(standard.globals, "stack-pointer"@, 0) {
                    None => result matches Err(error) && error@ == internal(
                        "Expected to find a global named $stack-pointer"@,
                    ),
                    Some(stack_pointer) => {
                        &&& result matches Ok(generator)
                        &&& generator.wf()
                        &&& quoted_are_strings(generator@)
                        &&& generator@ == GeneratorView::initial(
                            contract_analysis@,
                            standard,
                            stack_pointer,
                        )
                    },
                },
            },
    {
        if standard_lib_wasm.len() > u32::MAX as usize {
            return Err(internal_error("failed to load standard library"));
        }
        let module = match parse_module(standard_lib_wasm) {
            Some(module) => module,
            None => return Err(internal_error("failed to load standard library")),
        };
        // Get the stack-pointer global ID
        let globals = list_globals(&module);
        let ghost contents = module_contents(module);
        let name = "stack-pointer".to_owned();
        let mut i: usize = 0;
        while i < globals.len()
            invariant
                i <= globals@.len(),
                standard_lib_wasm@.len() <= u32::MAX,
                name@ == "stack-pointer"@,
                contents == module_contents(module),
                globals@.len() == contents.globals.len(),
                forall|j: int|
                    0 <= j < globals@.len() ==> {
                        let global = contents.globals[j];
                        &&& global_index((#[trigger] globals@[j]).0) == global.index
                        &&& global_arena(globals@[j].0) == globals_arena(module)
                        &&& match globals@[j].1 {
                            Some(name) => global.name == Some(name@),
                            None => global.name is None,
                        }
                    },
                parsed_module(standard_lib_wasm@) == Some(contents),
                global_named(contents.globals, "stack-pointer"@, 0) == global_named(
                    contents.globals,
                    "stack-pointer"@,
                    i as nat,
                ),
            decreases globals@.len() - i,
        {
            let is_stack_pointer = match &globals[i].1 {
                Some(global_name) => *global_name == name,
                None => false,
            };
            if is_stack_pointer {
                let generator = WasmGenerator {
                    contract_analysis,
                    module,
                    literal_memory_end: END_OF_STANDARD_DATA,
                    stack_pointer: globals[i].0,
                    literal_memory_offset: LiteralTable::new(),
                    constants: StringHashMap::new(),
                    early_return_block_id: None,
                    return_type: None,
                    datavars_types: StringHashMap::new(),
                    maps_types: StringHashMap::new(),
                    bindings: StringHashMap::new(),
                    frame_size: 0,
                    standard_segments: Ghost(contents.data.len()),
                };
                proof {
                    lemma_no_literals_hold(
                        contents.data,
                        first_memory_index(contents),
                        END_OF_STANDARD_DATA,
                    );
                    lemma_nothing_fills(
                        first_memory_index(contents),
                        END_OF_STANDARD_DATA as nat,
                    );
                    assert(contents.data.skip(contents.data.len() as int) =~= Seq::empty());
                    lemma_nothing_is_quoted(generator@);
                    assert(generator@.bindings =~= Map::empty());
                    assert(contents.globals[i as int].index == global_index(globals@[i as int].0));
                }
                return Ok(generator);
            }
            i += 1;
        }
        Err(internal_error("Expected to find a global named $stack-pointer"))
    }

    /// Adds a local to the module.
    pub(crate) fn add_local(&mut self, ty: WasmType) -> (local: LocalId)
        requires
            old(self).wf(),
        ensures
            final(self).wf(),
            final(self)@ == old(self)@.add_local(ty),
            local_index(local) == old(self)@.next_local(),
    {
        add_local(&mut self.module, ty)
    }

    /// Gives the first memory as many pages as the literals and the stack frame take.
    pub fn set_memory_pages(&mut self) -> (result: Result<(), GeneratorError>)
        requires
            old(self).wf(),
        ensures
            final(self).wf(),
            if old(self)@.module.memories.len() == 0 {
                &&& result matches Err(error)
                &&& error@ == internal("No Memory found"@)
                &&& final(self)@ == old(self)@
            } else {
                &&& result is Ok
                &&& final(self)@ == old(self)@.with_module(
                    old(self)@.module.with_pages(
                        pages_for(
                            (old(self)@.literal_memory_end + old(self)@.frame_size) as nat,
                        ) as u32,
                    ),
                )
            },
    {
        if first_memory(&self.module).is_none() {
            return Err(internal_error("No Memory found"));
        }
        let total_memory_bytes: u64 = self.literal_memory_end as u64 + self.frame_size as u64;
        let pages_required: u64 = total_memory_bytes / PAGE_SIZE;
        let remainder: u64 = total_memory_bytes % PAGE_SIZE;
        let extra: u64 = if remainder > 0 {
            1
        } else {
            0
        };
        let pages: u32 = (pages_required + extra) as u32;
        set_first_memory_pages(&mut self.module, pages);
        Ok(())
    }

    /// The memory that values are kept in: the first one.
    pub fn get_memory(&self) -> (result: Result<MemoryId, GeneratorError>)
        ensures
            match result {
                Ok(memory) => first_memory_index(self@.module) == Some(memory_index(memory)),
                Err(error) => first_memory_index(self@.module) is None && error@ == internal(
                    "No memory found"@,
                ),
            },
    {
        match first_memory(&self.module) {
            Some(memory) => Ok(memory),
            None => Err(internal_error("No memory found")),
        }
    }

    /// Gets the result type of the given `SymbolicExpression`.
    pub fn get_expr_type(&self, expr: &SymbolicExpression) -> (result: Option<&Rc<TypeSignature>>)
        ensures
            deref_option(result) == self@.analysis.type_of(*expr),
    {
        match &self.contract_analysis.type_map {
            Some(types) => types.get(&expr.id),
            None => None,
        }
    }

    /// Sets the result type of the given `SymbolicExpression`, whether or not it had one.
    pub fn set_expr_type(&mut self, expr: &SymbolicExpression, ty: Rc<TypeSignature>) -> (result:
        Result<(), GeneratorError>)
        requires
            old(self).wf(),
        ensures
            final(self).wf(),
            final(self)@ == old(self)@.with_type(*expr, ty),
            match result {
                Ok(_) => old(self)@.analysis.types is Some,
                Err(error) => old(self)@.analysis.types is None && error@ == internal(
                    "type-checker must be called before Wasm generation"@,
                ),
            },
    {
        match &mut self.contract_analysis.type_map {
            Some(types) => {
                types.insert(expr.id, ty);
            },
            None => {
                return Err(internal_error("type-checker must be called before Wasm generation"));
            },
        }
        Ok(())
    }

    /// The function of the given name, which must be in the module.
    pub fn func_by_name(&self, name: &str) -> (function: FunctionId)
        requires
            self@.module.has_function(name@),
        ensures
            function_index(function) == self@.module.function(name@),
    {
        match function_by_name(&self.module, name) {
            Some(function) => function,
            None => vstd::pervasive::unreached(),
        }
    }

    /// The type of a function of the contract: of the public one of this name, else of the
    /// read-only one, else of the private one.
    pub fn get_function_type(&self, name: &str) -> (result: Option<&FunctionType>)
        ensures
            deref_option(result) == self@.analysis.function_type(name@),
    {
        match self.contract_analysis.get_public_function_type(name) {
            Some(ty) => Some(ty),
            None => match self.contract_analysis.get_read_only_function_type(name) {
                Some(ty) => Some(ty),
                None => self.contract_analysis.get_private_function(name),
            },
        }
    }

    /// What a sequence is made of.
    pub fn get_sequence_element_type(&self, sequence: &SymbolicExpression) -> (result: Result<
        SequenceElementType,
        GeneratorError,
    >)
        ensures
            match element_of(self@.analysis.type_of(*sequence)) {
                Ok(element) => result == Ok::<SequenceElementType, GeneratorError>(element),
                Err(failure) => result matches Err(error) && error@ == failure,
            },
    {
        match self.get_expr_type(sequence) {
            None => Err(type_error("sequence expression must be typed")),
            Some(ty) => match &**ty {
                TypeSignature::SequenceType(SequenceSubtype::ListType(list)) => Ok(
                    SequenceElementType::Other(share(&list.entry_type)),
                ),
                // Elements of a buffer and of a string-ascii are read byte by byte.
                TypeSignature::SequenceType(SequenceSubtype::BufferType(_))
                | TypeSignature::SequenceType(
                    SequenceSubtype::StringType(StringSubtype::ASCII(_)),
                ) => Ok(SequenceElementType::Byte),
                TypeSignature::SequenceType(
                    SequenceSubtype::StringType(StringSubtype::UTF8(_)),
                ) => Ok(SequenceElementType::UnicodeScalar),
                _ => Err(type_error("expected sequence type")),
            },
        }
    }
}

/// What a sequence of a type is made of.
pub open spec fn element_of(ty: Option<Rc<TypeSignature>>) -> Result<
    SequenceElementType,
    Failure,
> {
    match ty {
        None => Err(Failure::TypeError("sequence expression must be typed"@)),
        Some(ty) => match *ty {
            TypeSignature::SequenceType(SequenceSubtype::ListType(list)) => Ok(
                SequenceElementType::Other(list.entry_type),
            ),
            TypeSignature::SequenceType(SequenceSubtype::StringType(StringSubtype::UTF8(_))) => Ok(
                SequenceElementType::UnicodeScalar,
            ),
            TypeSignature::SequenceType(_) => Ok(SequenceElementType::Byte),
            _ => Err(Failure::TypeError("expected sequence type"@)),
        },
    }
}

} // verus!

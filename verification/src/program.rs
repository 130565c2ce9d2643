//! Statements, blocks, function definitions, and the whole contract.
use std::rc::Rc;
use vstd::hash_map::StringHashMap;
use vstd::prelude::*;
use vstd::string::StringExecFns;
use vstd::utf8::encode_utf8;
use walrus::ir::InstrSeqId;
use walrus::{FunctionId, LocalId, Module};

use crate::analysis::{lookup, AnalysisView, SymbolicExpression};
use crate::builder::InstrSeqBuilder;
use crate::clarity_vm::is_quoted;
use crate::error::{internal_error, type_error, Failure, GeneratorError};
use crate::execution::{law_global_is_restored, restores};
use crate::generator::{
    bindings_view, first_memory_index, internal, pages_for, GeneratorView, WasmGenerator,
    END_OF_STANDARD_DATA, PAGE_SIZE,
};
use crate::growth::{
    is_added_to, keeps_to_itself, lemma_called, lemma_emitted, lemma_generator_grew,
    lemma_generator_grew_twice, lemma_grew_twice, lemma_no_growth, lemma_visited_inside, reached,
    stage, Stage,
};
use crate::ir::{
    group_emit, lemma_add_locals_nothing, lemma_add_locals_twice, lemma_emit_all_nothing,
    lemma_emit_all_twice, no_ops, CodeView, FunctionCode, ModuleView, Op, WasmType,
};
use crate::layout::{clar2wasm_ty, drop_value, drops, wasm_repr};
use crate::literal_table::{fill, lemma_filling_is_apart, LiteralKey};
use crate::literals::{bytes_at, lemma_bytes_stay, lemma_identifier_is_placed, place_identifier};
use crate::memory::locals_from;
use crate::progress::{progress, Progress};
use crate::traversal::{expr_effect, not_type_checked};
use crate::types::{pointee, share, FixedFunction, FunctionArg, FunctionType, TypeSignature};
use crate::wasm_module::{
    add_export, block_results, finish_function, function_index, local_index, local_indices,
    module_contents, name_function, new_block_type, new_function, seq_index, set_global_init,
};
use crate::words::Words;

verus! {

broadcast use {group_emit, lemma_grew_twice};

/// Who may call a function.
#[derive(Debug)]
pub enum FunctionKind {
    Public,
    Private,
    ReadOnly,
}

/// Visits statements from position `i` on. `last` is the type of the value that the
/// statements before left on the stack.
pub open spec fn statements_effect<W: Words>(
    words: &W,
    start: Progress,
    statements: Seq<SymbolicExpression>,
    i: nat,
    last: Option<Rc<TypeSignature>>,
) -> Progress
    decreases statements.len() - i,
{
    if i >= statements.len() {
        start
    } else {
        let statement = statements[i as int];
        let ty = start.generator.analysis.type_of(statement);
        // The value of an earlier statement is dropped when a later one has a value.
        let ready = if ty is Some && last is Some {
            start.emit_all(drops(wasm_repr(*last->0).len()))
        } else {
            start
        };
        let next = expr_effect(words, ready, statement);
        if next.failure is Some {
            next
        } else {
            statements_effect(
                words,
                next,
                statements,
                i + 1,
                if ty is Some {
                    ty
                } else {
                    last
                },
            )
        }
    }
}

/// Visits a list of statements.
pub open spec fn statement_list_effect<W: Words>(
    words: &W,
    start: Progress,
    statements: Seq<SymbolicExpression>,
) -> Progress {
    if statements.len() == 0 {
        start.fail(internal("statement list must have at least one statement"@))
    } else {
        statements_effect(words, start, statements, 0, None)
    }
}

/// Visits an expression in a new instruction sequence.
pub open spec fn block_effect<W: Words>(
    words: &W,
    start: Progress,
    expr: SymbolicExpression,
) -> Progress {
    match start.generator.analysis.type_of(expr) {
        Some(ty) => {
            let inside = expr_effect(
                words,
                Progress { code: start.code.enter_block(wasm_repr(*ty)), ..start },
                expr,
            );
            Progress { code: inside.code.at_block(start.code.block), ..inside }
        },
        None => start.fail(Failure::TypeError("Expression results must be typed"@)),
    }
}

/// How the host is told who may call a function.
pub open spec fn kind_code(kind: FunctionKind) -> i32 {
    match kind {
        FunctionKind::ReadOnly => 0,
        FunctionKind::Public => 1,
        FunctionKind::Private => 2,
    }
}

/// The type of a function that is being defined.
pub open spec fn defined_type(
    analysis: AnalysisView,
    name: Seq<char>,
    kind: FunctionKind,
) -> Option<FunctionType> {
    match kind {
        FunctionKind::ReadOnly => lookup(analysis.read_only_functions, name),
        FunctionKind::Public => lookup(analysis.public_functions, name),
        FunctionKind::Private => lookup(analysis.private_functions, name),
    }
}

/// The types of the locals of the first `n` parameters.
pub open spec fn param_types(params: Seq<FunctionArg>, n: nat) -> Seq<WasmType>
    decreases n,
{
    if n == 0 || n > params.len() {
        Seq::empty()
    } else {
        param_types(params, (n - 1) as nat) + wasm_repr(*params[n - 1].signature)
    }
}

/// The locals of the first `n` parameters, by name, where the locals are added from
/// position `first` on.
pub open spec fn param_bindings(params: Seq<FunctionArg>, n: nat, first: nat) -> Map<
    Seq<char>,
    Seq<nat>,
>
    decreases n,
{
    if n == 0 || n > params.len() {
        Map::empty()
    } else {
        param_bindings(params, (n - 1) as nat, first).insert(
            params[n - 1].name@,
            locals_from(
                first + param_types(params, (n - 1) as nat).len(),
                wasm_repr(*params[n - 1].signature).len(),
            ),
        )
    }
}

impl GeneratorView {
    /// The state in which a function is visited that returns what `function` does.
    pub open spec fn returning(self, function: Rc<FixedFunction>) -> GeneratorView {
        GeneratorView { return_type: Some(function.returns), ..self }
    }
}

/// The instructions that tell the host of a function: of its kind, and of the place and the
/// length of its name.
pub open spec fn announcement(
    module: ModuleView,
    kind: FunctionKind,
    offset: u32,
    length: u32,
) -> Seq<Op> {
    no_ops()
        .push(Op::I32Const(kind_code(kind)))
        .push(Op::I32Const(offset as i32))
        .push(Op::I32Const(length as i32))
        .push(Op::Call(module.function("stdlib.define_function"@)))
}

/// What is done before the body of a function is visited: the host is told of the
/// function.
pub open spec fn announce_effect(
    start: Progress,
    name: Seq<char>,
    kind: FunctionKind,
) -> Progress {
    let kinded = start.emit_all(no_ops().push(Op::I32Const(kind_code(kind))));
    match defined_type(start.generator.analysis, name, kind) {
        Some(FunctionType::Fixed(function)) => {
            let placement = place_identifier(start.generator.returning(function), name);
            let placed = Progress { generator: placement.generator, ..kinded };
            match placement.place {
                Ok((offset, length)) => placed.emit_all(
                    no_ops().push(Op::I32Const(offset as i32)).push(Op::I32Const(length as i32)),
                ).call("stdlib.define_function"@),
                Err(failure) => placed.fail(failure),
            }
        },
        Some(_) => kinded.fail(Failure::TypeError("expected fixed function type"@)),
        None => kinded.fail(Failure::TypeError("unable to find function type for "@ + name)),
    }
}

/// Where the body of a function starts to be visited. The parameters are its first locals,
/// and the next one keeps the stack pointer. The body has a block of its own, which an
/// early return leaves.
pub open spec fn body_start(
    generator: GeneratorView,
    name: Seq<char>,
    function: Rc<FixedFunction>,
) -> Progress {
    let params = function.args@;
    let first = generator.next_local();
    let types = param_types(params, params.len());
    let results = wasm_repr(*function.returns);
    let code = CodeView {
        function: FunctionCode { name: Some(name), ..FunctionCode::empty(types, results) },
        block: 0,
    };
    let frame_pointer = first + types.len();
    Progress::start(
        GeneratorView {
            bindings: param_bindings(params, params.len(), first),
            early_return_block: Some(1),
            ..generator.add_locals(types).add_local(WasmType::I32)
        },
        code.emit_all(
            no_ops()
                .push(Op::GlobalGet(generator.stack_pointer))
                .push(Op::LocalSet(frame_pointer)),
        ).enter_block(results),
    )
}

/// The function after its body was visited: the body is run, and the stack pointer is put
/// back.
pub open spec fn finished_code(body: Progress, frame_pointer: nat) -> CodeView {
    body.code.at_block(0).emit_all(
        no_ops()
            .push(Op::Block(1))
            .push(Op::LocalGet(frame_pointer))
            .push(Op::GlobalSet(body.generator.stack_pointer)),
    )
}

/// Defines a function.
pub open spec fn define_function_effect<W: Words>(
    words: &W,
    start: Progress,
    name: Seq<char>,
    body: SymbolicExpression,
    kind: FunctionKind,
) -> Progress {
    let announced = announce_effect(start, name, kind);
    if announced.failure is Some {
        announced
    } else {
        let function = defined_type(start.generator.analysis, name, kind)->0->Fixed_0;
        let first = announced.generator.next_local();
        let ready = body_start(announced.generator, name, function);
        if ready.generator.analysis.types is None {
            Progress { generator: ready.generator, ..announced.fail(not_type_checked()) }
        } else {
            let visited = expr_effect(
                words,
                Progress { generator: ready.generator.with_type(body, function.returns), ..ready },
                body,
            );
            if visited.failure is Some {
                Progress { code: announced.code, ..visited }
            } else {
                let types = param_types(function.args@, function.args@.len());
                let code = finished_code(visited, first + types.len());
                Progress {
                    generator: GeneratorView {
                        // The bindings of the top level are back.
                        bindings: start.generator.bindings,
                        return_type: None,
                        early_return_block: None,
                        ..visited.generator.with_module(
                            visited.generator.module.add_function(
                                code.function,
                                locals_from(first, types.len()),
                            ),
                        )
                    },
                    ..announced
                }
            }
        }
    }
}

/// The type of the last of the first `n` expressions that has one.
pub open spec fn last_type(
    analysis: AnalysisView,
    expressions: Seq<SymbolicExpression>,
    n: nat,
) -> Option<Rc<TypeSignature>>
    decreases n,
{
    if n == 0 || n > expressions.len() {
        None
    } else {
        match analysis.type_of(expressions[n - 1]) {
            Some(ty) => Some(ty),
            None => last_type(analysis, expressions, (n - 1) as nat),
        }
    }
}

/// The types of the values that a contract leaves: those of its last expression with a
/// value.
pub open spec fn contract_results(
    analysis: AnalysisView,
    expressions: Seq<SymbolicExpression>,
) -> Seq<WasmType> {
    match last_type(analysis, expressions, expressions.len()) {
        Some(ty) => wasm_repr(*ty),
        None => Seq::empty(),
    }
}

/// The module once all expressions are visited: the top level is exported, the memory is
/// large enough, and the stack starts after the literals.
pub open spec fn finished_module(visited: Progress) -> ModuleView {
    let generator = visited.generator;
    let top_level = generator.module.functions.len();
    generator.module.add_function(visited.code.function, Seq::empty()).add_export(
        ".top-level"@,
        top_level,
    ).with_pages(
        pages_for((generator.literal_memory_end + generator.frame_size) as nat) as u32,
    ).with_global(generator.stack_pointer, generator.literal_memory_end as i32)
}

/// The top level after all expressions of a contract were visited.
pub open spec fn top_level_effect<W: Words>(words: &W, generator: GeneratorView) -> Progress {
    let expressions = generator.analysis.expressions;
    // The expressions are taken out of the analysis while they are visited.
    let analysis = AnalysisView { expressions: Seq::empty(), ..generator.analysis };
    let start = Progress::start(
        GeneratorView { analysis, ..generator },
        CodeView {
            function: FunctionCode::empty(Seq::empty(), contract_results(analysis, expressions)),
            block: 0,
        },
    );
    if expressions.len() == 0 {
        start
    } else {
        statement_list_effect(words, start, expressions)
    }
}

/// The module that a contract becomes, or why it does not become one.
pub open spec fn generated<W: Words>(words: &W, generator: GeneratorView) -> Result<
    ModuleView,
    Failure,
> {
    let visited = top_level_effect(words, generator);
    match visited.failure {
        Some(failure) => Err(failure),
        None => if visited.generator.module.memories.len() == 0 {
            Err(internal("No Memory found"@))
        } else {
            Ok(finished_module(visited))
        },
    }
}

/// Telling the host of a function grows the function that does so: it gets the kind of the
/// function, the place and the length of its name, and a call. The name is at that place.
proof fn lemma_announcement_grows(start: Progress, name: Seq<char>, kind: FunctionKind)
    requires
        start.generator.wf(),
        start.code.wf(),
        start.failure is None,
    ensures
        reached(announce_effect(start, name, kind)).grew_from(reached(start)),
        announce_effect(start, name, kind).failure is None ==> {
            let after = announce_effect(start, name, kind);
            let (offset, length) = place_identifier(start.generator, name).place->Ok_0;
            &&& after.code == start.code.emit_all(
                announcement(start.generator.module, kind, offset, length),
            )
            &&& length == encode_utf8(name).len()
            &&& !is_quoted(name) ==> bytes_at(after.generator, offset, encode_utf8(name))
        },
{
    broadcast use lemma_grew_twice;

    lemma_no_growth(reached(start));
    let kinded = no_ops().push(Op::I32Const(kind_code(kind)));
    lemma_emitted(start.generator, start.code, kinded);
    let code = start.code.emit_all(kinded);
    match defined_type(start.generator.analysis, name, kind) {
        Some(FunctionType::Fixed(function)) => {
            let returning = start.generator.returning(function);
            assert(returning.grew_from(start.generator)) by {
                reveal(GeneratorView::grew_from);
            }
            let placement = place_identifier(returning, name);
            lemma_identifier_is_placed(returning, name);
            lemma_generator_grew_twice(start.generator, returning, placement.generator);
            lemma_generator_grew(start.generator, placement.generator, code);
            let placed = Progress { generator: placement.generator, code, failure: None };
            if let Ok((offset, length)) = placement.place {
                let ops = no_ops().push(Op::I32Const(offset as i32)).push(
                    Op::I32Const(length as i32),
                );
                lemma_emitted(placed.generator, code, ops);
                lemma_called(placed.emit_all(ops), "stdlib.define_function"@);
                lemma_emit_all_twice(start.code, kinded, ops);
                assert(kinded + ops =~= kinded.push(Op::I32Const(offset as i32)).push(
                    Op::I32Const(length as i32),
                ));
            }
        },
        _ => {},
    }
}

/// A function that is defined leaves the stack pointer as it found it, whenever and however
/// it returns.
proof fn lemma_definition_restores(
    generator: GeneratorView,
    name: Seq<char>,
    function: Rc<FixedFunction>,
    ready: GeneratorView,
    visited: Stage,
)
    requires
        visited.grew_from(stage(ready, body_start(generator, name, function).code)),
        ready.next_local() == generator.next_local() + param_types(
            function.args@,
            function.args@.len(),
        ).len() + 1,
        ready.early_return_block == Some(1nat),
        ready.stack_pointer == generator.stack_pointer,
    ensures
        ({
            let frame_pointer = generator.next_local() + param_types(
                function.args@,
                function.args@.len(),
            ).len();
            let code = finished_code(
                Progress::start(visited.generator, visited.code),
                frame_pointer,
            );
            restores(code.function, generator.stack_pointer)
        }),
{
    reveal(CodeView::emit_all);
    reveal(is_added_to);
    reveal(GeneratorView::grew_from);
    let frame_pointer = generator.next_local() + param_types(
        function.args@,
        function.args@.len(),
    ).len();
    let global = generator.stack_pointer;
    let begun = body_start(generator, name, function).code.function.blocks;
    let blocks = visited.code.function.blocks;
    let code = finished_code(Progress::start(visited.generator, visited.code), frame_pointer);
    let done = code.function.blocks;
    assert(blocks[0] == begun[0]);
    assert(done[0].ops =~= no_ops().push(Op::GlobalGet(global)).push(
        Op::LocalSet(frame_pointer),
    ).push(Op::Block(1)).push(Op::LocalGet(frame_pointer)).push(Op::GlobalSet(global)));
    assert forall|b: int, i: int|
        1 <= b < done.len() && 0 <= i < done[b].ops.len() implies keeps_to_itself(
        #[trigger] done[b].ops[i],
        frame_pointer + 1,
        2,
        Some(1nat),
    ) by {
        assert(done[b] == blocks[b]);
    }
    law_global_is_restored(code.function, global, frame_pointer);
}

/// A definition grows the generator.
proof fn lemma_definition_grows(
    announced: GeneratorView,
    ready: GeneratorView,
    visited: GeneratorView,
    after: GeneratorView,
)
    requires
        ready.grew_from(GeneratorView { early_return_block: Some(1nat), ..announced }),
        visited.grew_from(ready),
        visited.module.functions.is_prefix_of(after.module.functions),
        after == (GeneratorView {
            bindings: after.bindings,
            return_type: None,
            early_return_block: None,
            module: ModuleView { functions: after.module.functions, ..visited.module },
            ..visited
        }),
    ensures
        after.grew_from(announced),
{
    let base = GeneratorView { early_return_block: Some(1nat), ..announced };
    lemma_generator_grew_twice(base, ready, visited);
    let open = GeneratorView { early_return_block: visited.early_return_block, ..after };
    reveal(GeneratorView::grew_from);
    assert(open.grew_from(visited));
    lemma_generator_grew_twice(base, visited, open);
    assert forall|key: LiteralKey| #[trigger]
        announced.literals.contains_key(key) implies after.literals.contains_key(key)
        && after.literals[key] == announced.literals[key] by {
        assert(base.literals.contains_key(key));
        assert(open.literals.contains_key(key));
    }
}

/// Whether the stack of a module starts where its literals end and the memory has room for
/// the frames. `before` is the state before the contract was visited, and `after` that
/// after it was.
pub open spec fn stack_is_set_up(
    module: ModuleView,
    before: GeneratorView,
    after: GeneratorView,
) -> bool {
    let end = after.literal_memory_end;
    let literals = module.data.skip(before.standard_segments as int);
    &&& module.has_global(before.stack_pointer)
    &&& forall|i: int|
        0 <= i < module.globals.len() && (#[trigger] module.globals[i]).index
            == before.stack_pointer ==> module.globals[i].init == Some(end as i32)
    &&& before.module.data.is_prefix_of(module.data)
    &&& fill(
        literals,
        first_memory_index(module),
        END_OF_STANDARD_DATA as nat,
        end as nat,
    )
    &&& forall|i: int|
        0 <= i < literals.len() ==> (#[trigger] literals[i]).offset + literals[i].bytes.len()
            <= end
    &&& module.memories.len() > 0
    &&& module.memories[0].initial * PAGE_SIZE >= end + after.frame_size
}

/// The stack of a finished module is set up.
proof fn lemma_stack_is_set_up(before: GeneratorView, visited: Progress)
    requires
        visited.generator.wf(),
        visited.generator.grew_from(before),
        visited.generator.module.memories.len() > 0,
    ensures
        stack_is_set_up(finished_module(visited), before, visited.generator),
{
    reveal(GeneratorView::grew_from);
    let after = visited.generator;
    let module = finished_module(visited);
    let i = choose|i: int|
        0 <= i < after.module.globals.len() && (#[trigger] after.module.globals[i]).index
            == after.stack_pointer;
    assert(module.globals[i].index == before.stack_pointer);
    lemma_filling_is_apart(
        after.literal_segments(),
        first_memory_index(after.module),
        END_OF_STANDARD_DATA as nat,
        after.literal_memory_end as nat,
    );
}

impl WasmGenerator {
    /// Visits statements. Of their values, the last one stays on the stack.
    pub fn traverse_statement_list<W: Words>(
        &mut self,
        words: &W,
        builder: &mut InstrSeqBuilder,
        statements: &[SymbolicExpression],
    ) -> (result: Result<(), GeneratorError>)
        requires
            old(self).wf(),
            old(builder).wf(),
        ensures
            final(self).wf(),
            final(builder).wf(),
            final(builder).seq == old(builder).seq,
            final(builder).grew_from(*old(builder)),
            result is Ok ==> stage(final(self)@, final(builder)@).grew_from(
                stage(old(self)@, old(builder)@),
            ),
            progress(*final(self), *final(builder), result) == statement_list_effect(
                words,
                Progress::start(old(self)@, old(builder)@),
                statements@,
            ),
    {
        if statements.len() == 0 {
            return Err(internal_error("statement list must have at least one statement"));
        }
        proof {
            lemma_no_growth(stage(self@, builder@));
        }
        let mut last_ty: Option<Rc<TypeSignature>> = None;
        let mut i: usize = 0;
        // Traverse the statements, saving the last non-none value.
        while i < statements.len()
            invariant
                self.wf(),
                builder.wf(),
                builder.seq == old(builder).seq,
                builder.grew_from(*old(builder)),
                stage(self@, builder@).grew_from(stage(old(self)@, old(builder)@)),
                statements_effect(
                    words,
                    Progress::start(old(self)@, old(builder)@),
                    statements@,
                    0,
                    None,
                ) == statements_effect(
                    words,
                    Progress::start(self@, builder@),
                    statements@,
                    i as nat,
                    last_ty,
                ),
            decreases statements@.len() - i,
        {
            // If stmt has a type, save that type. If there was a previous type
            // saved, then drop that value.
            let ty = match self.get_expr_type(&statements[i]) {
                Some(ty) => Some(share(ty)),
                None => None,
            };
            if let Some(ty) = ty {
                if let Some(last) = &last_ty {
                    proof {
                        lemma_emitted(
                            self@,
                            builder@,
                            drops(wasm_repr(pointee(last_ty->0)).len()),
                        );
                    }
                    drop_value(builder, last);
                }
                last_ty = Some(ty);
            }
            self.traverse_expr(words, builder, &statements[i])?;
            i += 1;
        }
        Ok(())
    }

    /// Visits an expression in a new instruction sequence, which nothing runs yet.
    pub fn block_from_expr<W: Words>(
        &mut self,
        words: &W,
        builder: &mut InstrSeqBuilder,
        expr: &SymbolicExpression,
    ) -> (result: Result<InstrSeqId, GeneratorError>)
        requires
            old(self).wf(),
            old(builder).wf(),
        ensures
            final(self).wf(),
            final(builder).wf(),
            final(builder).seq == old(builder).seq,
            final(builder).grew_from(*old(builder)),
            result is Ok ==> stage(final(self)@, final(builder)@).grew_from(
                stage(old(self)@, old(builder)@),
            ),
            progress(*final(self), *final(builder), result) == block_effect(
                words,
                Progress::start(old(self)@, old(builder)@),
                *expr,
            ),
            result matches Ok(block) ==> seq_index(block)
                == old(builder)@.function.blocks.len(),
    {
        let return_type = match self.get_expr_type(expr) {
            Some(ty) => clar2wasm_ty(ty),
            None => return Err(type_error("Expression results must be typed")),
        };
        let outer = builder.seq;
        let ty = new_block_type(&mut self.module, return_type.as_slice());
        let block = builder.enter_block(ty);
        let visited = self.traverse_expr(words, builder, expr);
        proof {
            if visited is Ok {
                lemma_visited_inside(
                    old(self)@,
                    old(builder)@,
                    block_results(ty),
                    stage(self@, builder@),
                );
            }
        }
        builder.seq = outer;
        visited?;
        Ok(block)
    }

    /// Adds locals of the given types.
    fn add_new_locals(&mut self, types: &Vec<WasmType>) -> (locals: Vec<LocalId>)
        requires
            old(self).wf(),
        ensures
            final(self).wf(),
            final(self)@ == old(self)@.add_locals(types@),
            local_indices(locals@) == locals_from(old(self)@.next_local(), types@.len()),
    {
        let ghost first = old(self)@.next_local();
        let mut locals: Vec<LocalId> = Vec::new();
        let mut i: usize = 0;
        proof {
            lemma_add_locals_nothing(self@.module);
            assert(types@.take(0) =~= Seq::empty());
        }
        while i < types.len()
            invariant
                i <= types@.len(),
                first == old(self)@.next_local(),
                self.wf(),
                self@ == old(self)@.add_locals(types@.take(i as int)),
                local_indices(locals@) == locals_from(first, i as nat),
            decreases types@.len() - i,
        {
            let ghost before = locals@;
            locals.push(self.add_local(types[i]));
            proof {
                assert(types@.take(i + 1) =~= types@.take(i as int).push(types@[i as int]));
                assert(local_indices(locals@) =~= local_indices(before).push(first + i as nat));
                assert(locals_from(first, (i + 1) as nat) =~= locals_from(first, i as nat).push(
                    first + i as nat,
                ));
            }
            i += 1;
        }
        assert(types@.take(i as int) =~= types@);
        locals
    }

    /// Adds the locals of the parameters of a function. Returns the locals, their types,
    /// and the locals of each parameter.
    fn add_params(&mut self, function: &FixedFunction) -> (result: (
        Vec<LocalId>,
        Vec<WasmType>,
        StringHashMap<Vec<LocalId>>,
    ))
        requires
            old(self).wf(),
        ensures
            final(self).wf(),
            final(self)@ == old(self)@.add_locals(
                param_types(function.args@, function.args@.len()),
            ),
            local_indices(result.0@) == locals_from(
                old(self)@.next_local(),
                param_types(function.args@, function.args@.len()).len(),
            ),
            result.1@ == param_types(function.args@, function.args@.len()),
            bindings_view(result.2@) == param_bindings(
                function.args@,
                function.args@.len(),
                old(self)@.next_local(),
            ),
    {
        let ghost first = old(self)@.next_local();
        let ghost params = function.args@;
        let mut bindings: StringHashMap<Vec<LocalId>> = StringHashMap::new();
        let mut param_locals: Vec<LocalId> = Vec::new();
        let mut params_types: Vec<WasmType> = Vec::new();
        proof {
            lemma_add_locals_nothing(self@.module);
            assert(bindings_view(bindings@) =~= Map::empty());
        }
        let mut i: usize = 0;
        while i < function.args.len()
            invariant
                i <= params.len(),
                params == function.args@,
                first == old(self)@.next_local(),
                self.wf(),
                self@ == old(self)@.add_locals(param_types(params, i as nat)),
                params_types@ == param_types(params, i as nat),
                local_indices(param_locals@) == locals_from(
                    first,
                    param_types(params, i as nat).len(),
                ),
                bindings_view(bindings@) == param_bindings(params, i as nat, first),
            decreases params.len() - i,
        {
            let param = &function.args[i];
            let mut types = clar2wasm_ty(&param.signature);
            let locals = self.add_new_locals(&types);
            let ghost done = param_types(params, i as nat);
            let ghost repr = types@;
            let ghost locals_before = param_locals@;
            let ghost bindings_before = bindings@;
            let mut copied = vstd::slice::slice_to_vec(locals.as_slice());
            param_locals.append(&mut copied);
            params_types.append(&mut types);
            bindings.insert(param.name.clone(), locals);
            proof {
                lemma_add_locals_twice(old(self)@.module, done, repr);
                assert(local_indices(param_locals@) =~= local_indices(locals_before)
                    + local_indices(locals@));
                assert(locals_from(first, (done + repr).len()) =~= locals_from(first, done.len())
                    + locals_from(first + done.len(), repr.len()));
                assert(bindings_view(bindings@) =~= bindings_view(bindings_before).insert(
                    param.name@,
                    local_indices(locals@),
                ));
            }
            i += 1;
        }
        (param_locals, params_types, bindings)
    }

    /// Tells the host of a function that is being defined. Returns the function's type.
    fn announce_function(
        &mut self,
        builder: &mut InstrSeqBuilder,
        name: &str,
        kind: &FunctionKind,
    ) -> (result: Result<Rc<FixedFunction>, GeneratorError>)
        requires
            old(self).wf(),
            old(builder).wf(),
        ensures
            final(self).wf(),
            final(builder).wf(),
            final(builder).seq == old(builder).seq,
            final(builder).grew_from(*old(builder)),
            progress(*final(self), *final(builder), result) == announce_effect(
                Progress::start(old(self)@, old(builder)@),
                name@,
                *kind,
            ),
            result matches Ok(function) ==> defined_type(old(self)@.analysis, name@, *kind)
                == Some(FunctionType::Fixed(function)),
    {
        proof {
            lemma_emit_all_nothing(builder@);
        }
        let opt_function_type = match kind {
            FunctionKind::ReadOnly => {
                builder.i32_const(0);
                self.contract_analysis.get_read_only_function_type(name)
            },
            FunctionKind::Public => {
                builder.i32_const(1);
                self.contract_analysis.get_public_function_type(name)
            },
            FunctionKind::Private => {
                builder.i32_const(2);
                self.contract_analysis.get_private_function(name)
            },
        };
        let function_type = match opt_function_type {
            Some(FunctionType::Fixed(fixed)) => share(fixed),
            Some(_) => return Err(type_error("expected fixed function type")),
            None => {
                return Err(
                    GeneratorError::TypeError(
                        "unable to find function type for ".to_owned().concat(name),
                    ),
                );
            },
        };
        self.return_type = Some(share(&function_type.returns));

        // Call the host interface to save this function
        // Arguments are kind (already pushed) and name (offset, length)
        let (id_offset, id_length) = self.add_string_literal(name)?;
        proof {
            lemma_emit_all_nothing(builder@);
        }
        builder.i32_const(id_offset as i32);
        builder.i32_const(id_length as i32);

        // Call the host interface function, `define_function`
        self.call_function(builder, "stdlib.define_function")?;
        Ok(function_type)
    }

    /// Defines a function. Returns the function.
    pub fn traverse_define_function<W: Words>(
        &mut self,
        words: &W,
        builder: &mut InstrSeqBuilder,
        name: &str,
        body: &SymbolicExpression,
        kind: FunctionKind,
    ) -> (result: Result<FunctionId, GeneratorError>)
        requires
            old(self).wf(),
            old(builder).wf(),
        ensures
            final(self).wf(),
            final(builder).wf(),
            final(builder).seq == old(builder).seq,
            final(builder).grew_from(*old(builder)),
            result is Ok ==> stage(final(self)@, final(builder)@).grew_from(
                stage(old(self)@, old(builder)@),
            ),
            progress(*final(self), *final(builder), result) == define_function_effect(
                words,
                Progress::start(old(self)@, old(builder)@),
                name@,
                *body,
                kind,
            ),
            result matches Ok(function) ==> {
                let defined = defined_type(old(self)@.analysis, name@, kind)->0->Fixed_0;
                let functions = final(self)@.module.functions;
                &&& function_index(function) + 1 == functions.len()
                &&& functions.last().name == Some(name@)
                &&& functions.last().built matches Some((code, params))
                &&& code.params == param_types(defined.args@, defined.args@.len())
                &&& code.results == wasm_repr(*defined.returns)
                &&& params.len() == code.params.len()
                // Whenever the function returns, the stack pointer is as it was.
                &&& restores(code, old(self)@.stack_pointer)
            },
            // The host is told of the function, and where its name is.
            result is Ok ==> {
                let (offset, length) = place_identifier(old(self)@, name@).place->Ok_0;
                &&& final(builder)@ == old(builder)@.emit_all(
                    announcement(old(self)@.module, kind, offset, length),
                )
                &&& length == encode_utf8(name@).len()
                &&& !is_quoted(name@) ==> bytes_at(final(self)@, offset, encode_utf8(name@))
            },
    {
        proof {
            lemma_announcement_grows(Progress::start(self@, builder@), name@, kind);
        }
        let function_type = self.announce_function(builder, name, &kind)?;
        let ghost announced = *self;

        // Setup the parameters
        let (param_locals, params_types, bindings) = self.add_params(&function_type);

        let results_types = clar2wasm_ty(&function_type.returns);
        let mut func_builder = new_function(
            &mut self.module,
            params_types.as_slice(),
            results_types.as_slice(),
        );
        name_function(&mut func_builder, name.to_owned());
        let mut function = InstrSeqBuilder::new(func_builder);
        let func_body = function.seq;
        proof {
            lemma_emit_all_nothing(function@);
        }
        // Function prelude
        // Save the frame pointer in a local variable.
        let frame_pointer = self.add_local(WasmType::I32);
        function.global_get(self.stack_pointer);
        function.local_set(frame_pointer);

        // Setup the locals map for this function, saving the top-level map to
        // restore after.
        let mut top_level_locals = bindings;
        std::mem::swap(&mut self.bindings, &mut top_level_locals);

        let block_ty = new_block_type(&mut self.module, results_types.as_slice());
        let block_id = function.enter_block(block_ty);

        self.early_return_block_id = Some(block_id);
        let ghost ready = body_start(announced@, name@, function_type);
        assert(self@ == ready.generator);
        assert(function@ == ready.code);

        // Traverse the body of the function
        self.set_expr_type(body, share(&function_type.returns))?;
        let ghost typed = self@;
        self.traverse_expr(words, &mut function, body)?;
        let ghost visited = Progress::start(self@, function@);
        proof {
            let opened = GeneratorView { early_return_block: Some(1nat), ..announced@ };
            assert(typed.grew_from(opened)) by {
                reveal(GeneratorView::grew_from);
            }
            lemma_definition_restores(
                announced@,
                name@,
                function_type,
                typed,
                stage(self@, function@),
            );
        }

        // Insert the function body block into the function
        function.seq = func_body;
        proof {
            lemma_emit_all_nothing(function@);
        }
        function.block(block_id);

        // Function postlude
        // Restore the initial stack pointer.
        function.local_get(frame_pointer);
        function.global_set(self.stack_pointer);
        assert(function@ == finished_code(visited, local_index(frame_pointer)));

        // Restore the top-level locals map.
        self.bindings = top_level_locals;

        // Reset the return type and early block to None
        self.return_type = None;
        self.early_return_block_id = None;

        let function = finish_function(function.func, param_locals, &mut self.module);
        proof {
            assert(visited.generator.module.functions.is_prefix_of(self@.module.functions));
            lemma_definition_grows(announced@, typed, visited.generator, self@);
            lemma_generator_grew(announced@, self@, builder@);
            if !is_quoted(name@) {
                lemma_bytes_stay(
                    announced@,
                    self@,
                    place_identifier(old(self)@, name@).place->Ok_0.0,
                    encode_utf8(name@),
                );
            }
        }
        Ok(function)
    }

    /// Visits the whole contract and returns the module that it becomes.
    pub fn generate<W: Words>(self, words: &W) -> (result: Result<Module, GeneratorError>)
        requires
            self.wf(),
        ensures
            match result {
                Ok(module) => {
                    let contents = module_contents(module);
                    &&& generated(words, self@) == Ok::<ModuleView, Failure>(contents)
                    // The exported function takes nothing and leaves the contract's value.
                    &&& contents.exports.last() == (
                        ".top-level"@,
                        (contents.functions.len() - 1) as nat,
                    )
                    &&& contents.functions.last().built matches Some((code, params))
                    &&& code.params == Seq::<WasmType>::empty()
                    &&& code.results == contract_results(
                        AnalysisView { expressions: Seq::empty(), ..self@.analysis },
                        self@.analysis.expressions,
                    )
                    // The stack starts after the literals, and inside the memory.
                    &&& stack_is_set_up(
                        contents,
                        self@,
                        top_level_effect(words, self@).generator,
                    )
                },
                Err(error) => generated(words, self@) == Err::<ModuleView, Failure>(error@),
            },
    {
        let mut generator = self;
        let mut expressions: Vec<SymbolicExpression> = Vec::new();
        std::mem::swap(&mut generator.contract_analysis.expressions, &mut expressions);

        // Get the type of the last top-level expression with a return value
        // or default to `None`.
        let return_ty = generator.last_expr_type(expressions.as_slice());

        let params: Vec<WasmType> = Vec::new();
        let current_function = new_function(
            &mut generator.module,
            params.as_slice(),
            return_ty.as_slice(),
        );
        let mut builder = InstrSeqBuilder::new(current_function);
        let ghost start = generator@;
        proof {
            lemma_no_growth(stage(start, builder@));
            assert(start.grew_from(self@)) by {
                reveal(GeneratorView::grew_from);
            }
        }
        if expressions.len() > 0 {
            generator.traverse_statement_list(words, &mut builder, expressions.as_slice())?;
        }
        let ghost visited = Progress::start(generator@, builder@);
        assert(visited == top_level_effect(words, self@));
        generator.contract_analysis.expressions = expressions;

        let params: Vec<LocalId> = Vec::new();
        assert(local_indices(params@) =~= Seq::empty());
        let top_level = finish_function(builder.func, params, &mut generator.module);
        add_export(&mut generator.module, ".top-level", top_level);

        generator.set_memory_pages()?;
        proof {
            lemma_generator_grew_twice(self@, start, visited.generator);
            lemma_stack_is_set_up(self@, visited);
        }

        // Update the initial value of the stack-pointer to point beyond the
        // literal memory.
        set_global_init(
            &mut generator.module,
            generator.stack_pointer,
            generator.literal_memory_end as i32,
        );

        Ok(generator.module)
    }

    /// The types of the stack values of the last expression that has a type.
    fn last_expr_type(&self, expressions: &[SymbolicExpression]) -> (types: Vec<WasmType>)
        ensures
            types@ == contract_results(self@.analysis, expressions@),
    {
        let mut i: usize = expressions.len();
        while i > 0
            invariant
                i <= expressions@.len(),
                last_type(self@.analysis, expressions@, expressions@.len()) == last_type(
                    self@.analysis,
                    expressions@,
                    i as nat,
                ),
            decreases i,
        {
            i -= 1;
            if let Some(ty) = self.get_expr_type(&expressions[i]) {
                return clar2wasm_ty(ty);
            }
        }
        Vec::new()
    }
}

} // verus!

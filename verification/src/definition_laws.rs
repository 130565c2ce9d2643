//! What functions that a contract defines get and return, and what blocks hold.
use std::rc::Rc;
use vstd::prelude::*;
use vstd::utf8::encode_utf8;

use crate::analysis::{AnalysisView, SymbolicExpression};
use crate::clarity_vm::is_quoted;
use crate::execution::{
    called, law_block_is_returned, lemma_sequence_runs_its_ops, returned, run_op, Outcome,
};
use crate::generator::{first_memory_index, GeneratorView};
use crate::growth::{is_added_to, keeps_to_itself, reached};
use crate::ir::{group_emit, no_ops, CodeView, FunctionCode, ModuleView, Op, WasmType};
use crate::layout::wasm_repr;
use crate::literals::{bytes_at, lemma_identifier_is_placed, place_identifier};
use crate::machine::{lemma_run_push, Machine, Word};
use crate::memory::locals_from;
use crate::program::{
    announce_effect, block_effect, body_start, contract_results, define_function_effect,
    defined_type, finished_code, finished_module, generated, kind_code, last_type, param_bindings,
    param_types, top_level_effect, FunctionKind,
};
use crate::progress::Progress;
use crate::runs::{
    lemma_leads_aside, lemma_leads_call, lemma_leads_plain, lemma_leads_twice, Run,
};
use crate::statement_laws::{stretch, written};
use crate::traversal::expr_effect;
use crate::types::{pointee, FixedFunction, FunctionArg};
use crate::value_laws::lemma_push_two;
use crate::words::Words;

verus! {

broadcast use group_emit;

/// The words that parameters take, those of the first parameter first.
pub open spec fn words_of(params: Seq<FunctionArg>) -> Seq<WasmType> {
    params.map_values(|param: FunctionArg| wasm_repr(*param.signature)).flatten()
}

/// The types of the locals of parameters are those of their words.
proof fn lemma_param_types(params: Seq<FunctionArg>, n: nat)
    requires
        n <= params.len(),
    ensures
        param_types(params, n) == words_of(params.take(n as int)),
    decreases n,
{
    let own = |param: FunctionArg| wasm_repr(*param.signature);
    let all = params.take(n as int).map_values(own);
    if n == 0 {
        assert(all =~= Seq::empty());
    } else {
        lemma_param_types(params, (n - 1) as nat);
        let before = params.take(n - 1).map_values(own);
        let last = wasm_repr(pointee(params[n - 1].signature));
        assert(all =~= before.push(last));
        before.lemma_flatten_push(last);
    }
}

/// The bindings of parameters.
proof fn lemma_param_bindings(params: Seq<FunctionArg>, n: nat, first: nat, i: nat)
    requires
        i < n <= params.len(),
        forall|j: int| i < j < n ==> (#[trigger] params[j]).name@ != params[i as int].name@,
    ensures
        param_bindings(params, n, first).contains_key(params[i as int].name@),
        param_bindings(params, n, first)[params[i as int].name@] == locals_from(
            first + words_of(params.take(i as int)).len(),
            wasm_repr(*params[i as int].signature).len(),
        ),
    decreases n,
{
    lemma_param_types(params, i);
    if i + 1 < n {
        lemma_param_bindings(params, (n - 1) as nat, first, i);
    }
}

/// The type of a function that is defined: that of the function of the name and kind.
pub open spec fn function_defined(
    start: Progress,
    name: Seq<char>,
    kind: FunctionKind,
) -> Rc<FixedFunction> {
    let analysis = start.generator.analysis;
    let found = match kind {
        FunctionKind::ReadOnly => analysis.read_only_functions[name],
        FunctionKind::Public => analysis.public_functions[name],
        FunctionKind::Private => analysis.private_functions[name],
    };
    found->Fixed_0
}

/// The state in which the body of a function is visited.
pub open spec fn body_entered(
    start: Progress,
    name: Seq<char>,
    body: SymbolicExpression,
    kind: FunctionKind,
) -> Progress {
    let announced = announce_effect(start, name, kind);
    let function = defined_type(start.generator.analysis, name, kind)->0->Fixed_0;
    let ready = body_start(announced.generator, name, function);
    Progress { generator: ready.generator.with_type(body, function.returns), ..ready }
}

/// The number that the host knows a kind of function by.
pub open spec fn number_of_kind(kind: FunctionKind) -> u32 {
    match kind {
        FunctionKind::ReadOnly => 0,
        FunctionKind::Public => 1,
        FunctionKind::Private => 2,
    }
}

/// Whether code tells the host of a function: of its kind, and of the place and the length of
/// its name, which is in memory at that place.
pub open spec fn host_is_told(
    run: Run,
    start: Progress,
    after: Progress,
    placed: GeneratorView,
    name: Seq<char>,
    kind: FunctionKind,
    machine: Machine,
    offset: u32,
    length: u32,
) -> bool {
    let host = start.generator.module.function("stdlib.define_function"@);
    let asked = machine.push(Word::I32(number_of_kind(kind))).push(Word::I32(offset)).push(
        Word::I32(length),
    );
    &&& length == encode_utf8(name).len()
    &&& bytes_at(placed, offset, encode_utf8(name))
    &&& run.leads(start.code, after.code, machine, called(run.around, host, asked)->0)
}

/// Where a function is defined, the host is told of it: the code that is written there calls
/// the function of the host for this, with the kind of the function, and then the place and
/// the length of its name on the stack. The name is in memory at that place.
pub proof fn law_host_is_told_of_a_definition<W: Words>(
    run: Run,
    words: &W,
    start: Progress,
    name: Seq<char>,
    body: SymbolicExpression,
    kind: FunctionKind,
    machine: Machine,
)
    requires
        start.failure is None,
        start.code.wf(),
        start.generator.wf(),
        !is_quoted(name),
        define_function_effect(words, start, name, body, kind).failure is None,
        forall|asked: Machine|
            (#[trigger] called(
                run.around,
                start.generator.module.function("stdlib.define_function"@),
                asked,
            )) is Some,
    ensures
        exists|offset: u32, length: u32| #[trigger]
            host_is_told(
                run,
                start,
                define_function_effect(words, start, name, body, kind),
                announce_effect(start, name, kind).generator,
                name,
                kind,
                machine,
                offset,
                length,
            ),
{
    broadcast use lemma_run_push;

    let announced = announce_effect(start, name, kind);
    let function = defined_type(start.generator.analysis, name, kind)->0->Fixed_0;
    let returning = start.generator.returning(function);
    let placement = place_identifier(returning, name);
    lemma_identifier_is_placed(returning, name);
    let (offset, length) = placement.place->Ok_0;
    let kinded = no_ops().push(Op::I32Const(kind_code(kind)));
    let located = no_ops().push(Op::I32Const(offset as i32)).push(Op::I32Const(length as i32));
    assert(machine.run(no_ops()) == Some(machine));
    let m1 = machine.push(Word::I32(number_of_kind(kind)));
    assert(machine.run(kinded) == Some(m1));
    assert(m1.run(no_ops()) == Some(m1));
    lemma_push_two(m1, offset, length);
    let asked = m1.push(Word::I32(offset)).push(Word::I32(length));
    let first = start.code.emit_all(kinded);
    let second = first.emit_all(located);
    lemma_leads_plain(run, start.code, kinded, machine, m1);
    lemma_leads_plain(run, first, located, m1, asked);
    lemma_leads_twice(run, start.code, first, second, machine, m1, asked);
    let placed = Progress { generator: placement.generator, code: second, failure: None };
    let host = start.generator.module.function("stdlib.define_function"@);
    assert(placed.generator.module.functions == start.generator.module.functions);
    assert(called(run.around, host, asked) is Some);
    lemma_leads_call(run, placed, "stdlib.define_function"@, asked);
    let then = called(run.around, host, asked)->0;
    assert(announced.code == placed.call("stdlib.define_function"@).code);
    lemma_leads_twice(run, start.code, second, announced.code, machine, asked, then);
    assert(announced.generator == placement.generator);
    assert(host_is_told(
        run,
        start,
        define_function_effect(words, start, name, body, kind),
        announced.generator,
        name,
        kind,
        machine,
        offset,
        length,
    ));
}

/// The body of a function is visited in a block of its own, which is empty, leaves the words
/// of the result, and is what an early return leaves. The body has the type that the
/// function returns. The function takes the words of its parameters in order, and the name
/// of a parameter is bound to the locals of its words; of two parameters of one name, the
/// later one counts. No other name is bound. Once the body was visited the function is added
/// to those of the module, and the names are those from before again.
pub proof fn law_body_is_set_up<W: Words>(
    words: &W,
    start: Progress,
    name: Seq<char>,
    body: SymbolicExpression,
    kind: FunctionKind,
    i: nat,
)
    requires
        start.failure is None,
        define_function_effect(words, start, name, body, kind).failure is None,
        expr_effect(words, body_entered(start, name, body, kind), body).code.grew_from(
            body_entered(start, name, body, kind).code,
        ),
    ensures
        ({
            let after = define_function_effect(words, start, name, body, kind);
            let function = function_defined(start, name, kind);
            let params = function.args@;
            let entered = body_entered(start, name, body, kind);
            let visited = expr_effect(words, entered, body);
            let functions = after.generator.module.functions;
            let block = entered.code.block as int;
            &&& entered.failure is None
            &&& entered.generator.constants == start.generator.constants
            &&& entered.generator.stack_pointer == start.generator.stack_pointer
            &&& entered.generator.frame_size == start.generator.frame_size
            &&& entered.code.wf()
            &&& written(entered.code) == no_ops()
            &&& entered.code.function.blocks[block].results == wasm_repr(*function.returns)
            &&& entered.generator.early_return_block == Some(entered.code.block)
            &&& entered.generator.return_type == Some(function.returns)
            &&& entered.generator.analysis.type_of(body) == Some(function.returns)
            &&& visited.failure is None
            &&& after.generator == (GeneratorView {
                bindings: start.generator.bindings,
                return_type: None,
                early_return_block: None,
                module: ModuleView { functions, ..visited.generator.module },
                ..visited.generator
            })
            &&& functions.len() == visited.generator.module.functions.len() + 1
            &&& visited.generator.module.functions.is_prefix_of(functions)
            &&& functions.last().name == Some(name)
            &&& functions.last().built matches Some((code, locals))
            &&& code.params == words_of(params)
            &&& code.results == wasm_repr(*function.returns)
            &&& locals.len() == words_of(params).len()
            &&& forall|k: int|
                0 <= k < locals.len() ==> #[trigger] locals[k] == announce_effect(
                    start,
                    name,
                    kind,
                ).generator.next_local() + k
            &&& entered.generator.module.locals == announce_effect(
                start,
                name,
                kind,
            ).generator.module.locals + code.params + seq![WasmType::I32]
            &&& i < params.len() && (forall|j: int|
                i < j < params.len() ==> (#[trigger] params[j]).name@ != params[i as int].name@)
                ==> {
                let bindings = entered.generator.bindings;
                let from = words_of(params.take(i as int)).len() as int;
                let n = wasm_repr(*params[i as int].signature).len();
                &&& bindings.contains_key(params[i as int].name@)
                &&& bindings[params[i as int].name@].len() == n
                &&& forall|k: int|
                    0 <= k < n ==> #[trigger] bindings[params[i as int].name@][k] == locals[from
                        + k]
            }
            &&& forall|other: Seq<char>| #[trigger]
                entered.generator.bindings.contains_key(other) ==> exists|j: int|
                    0 <= j < params.len() && (#[trigger] params[j]).name@ == other
        }),
{
    let announced = announce_effect(start, name, kind);
    let function = function_defined(start, name, kind);
    let params = function.args@;
    let first = announced.generator.next_local();
    let entered = body_entered(start, name, body, kind);
    let visited = expr_effect(words, entered, body);
    let after = define_function_effect(words, start, name, body, kind);
    assert(defined_type(start.generator.analysis, name, kind)->0->Fixed_0 == function);
    lemma_param_types(params, params.len());
    assert(params.take(params.len() as int) =~= params);
    assert(written(entered.code) =~= no_ops());
    if i < params.len() && (forall|j: int|
        i < j < params.len() ==> (#[trigger] params[j]).name@ != params[i as int].name@) {
        lemma_param_bindings(params, params.len(), first, i);
        lemma_words_of_parts(params, i);
    }
    lemma_bound_names(params, params.len(), first);
    let code = finished_code(visited, first + words_of(params).len()).function;
    assert(after.generator.module.functions.last().built == Some(
        (code, locals_from(first, words_of(params).len())),
    ));
    reveal(CodeView::emit_all);
    assert(visited.failure is None);
}

/// The words of a parameter are among the words of all parameters.
proof fn lemma_words_of_parts(params: Seq<FunctionArg>, i: nat)
    requires
        i < params.len(),
    ensures
        words_of(params.take(i as int)).len() + wasm_repr(*params[i as int].signature).len()
            <= words_of(params).len(),
{
    lemma_param_types(params, i);
    lemma_param_types(params, params.len());
    assert(params.take(params.len() as int) =~= params);
    lemma_param_types_grow(params, i, params.len());
}

proof fn lemma_param_types_grow(params: Seq<FunctionArg>, i: nat, n: nat)
    requires
        i < n <= params.len(),
    ensures
        param_types(params, i).len() + wasm_repr(*params[i as int].signature).len() <= param_types(
            params,
            n,
        ).len(),
    decreases n,
{
    if i + 1 < n {
        lemma_param_types_grow(params, i, (n - 1) as nat);
    }
}

/// Only names of parameters are bound.
proof fn lemma_bound_names(params: Seq<FunctionArg>, n: nat, first: nat)
    requires
        n <= params.len(),
    ensures
        forall|other: Seq<char>| #[trigger]
            param_bindings(params, n, first).contains_key(other) ==> exists|j: int|
                0 <= j < n && (#[trigger] params[j]).name@ == other,
    decreases n,
{
    if n > 0 {
        lemma_bound_names(params, (n - 1) as nat, first);
        assert forall|other: Seq<char>| #[trigger]
            param_bindings(params, n, first).contains_key(other) implies exists|j: int|
            0 <= j < n && (#[trigger] params[j]).name@ == other by {
            if params[n - 1].name@ != other {
                assert(param_bindings(params, (n - 1) as nat, first).contains_key(other));
            }
        }
    }
}

/// A function can be defined where the contract has a function of the name and kind with a
/// fixed list of parameters, its name has room in memory, the host can be told of it, and
/// its body can be visited.
pub proof fn law_definition_succeeds<W: Words>(
    words: &W,
    start: Progress,
    name: Seq<char>,
    body: SymbolicExpression,
    kind: FunctionKind,
)
    requires
        start.failure is None,
        ({
            let analysis = start.generator.analysis;
            let functions = match kind {
                FunctionKind::ReadOnly => analysis.read_only_functions,
                FunctionKind::Public => analysis.public_functions,
                FunctionKind::Private => analysis.private_functions,
            };
            &&& functions.contains_key(name)
            &&& functions[name] is Fixed
            &&& analysis.types is Some
        }),
        first_memory_index(start.generator.module) is Some,
        start.generator.literal_memory_end + encode_utf8(name).len() <= u32::MAX,
        start.generator.module.has_function("stdlib.define_function"@),
        expr_effect(words, body_entered(start, name, body, kind), body).failure is None,
    ensures
        define_function_effect(words, start, name, body, kind).failure is None,
{
}

/// A function that was defined, when it is called, returns what its body leaves: all of it
/// where the body runs to its end, and the words of the result on top of it where it returns
/// early. Memory, locals and the host are as the body leaves them, and so are the globals,
/// but for the stack pointer, which is as it was before the call.
pub proof fn law_function_returns_what_its_body_leaves<W: Words>(
    run: Run,
    words: &W,
    start: Progress,
    name: Seq<char>,
    body: SymbolicExpression,
    kind: FunctionKind,
    machine: Machine,
)
    requires
        start.failure is None,
        define_function_effect(words, start, name, body, kind).failure is None,
        reached(expr_effect(words, body_entered(start, name, body, kind), body)).grew_from(
            reached(body_entered(start, name, body, kind)),
        ),
        define_function_effect(
            words,
            start,
            name,
            body,
            kind,
        ).generator.module.functions.last().built matches Some((code, _)) && run.function == code,
        machine.globals.contains_key(start.generator.stack_pointer),
        machine.stack == Seq::<Word>::empty(),
    ensures
        ({
            let entered = body_entered(start, name, body, kind);
            let visited = expr_effect(words, entered, body);
            let sp = start.generator.stack_pointer;
            let noted = machine.globals[sp];
            let frame = (entered.generator.next_local() - 1) as nat;
            let ran = run.added(
                entered.code,
                visited.code,
                Machine { locals: machine.locals.insert(frame, noted), ..machine },
            );
            let n = wasm_repr(*function_defined(start, name, kind).returns).len();
            let after = returned(run.function, run.around, machine, run.fuel + 1);
            match ran {
                Outcome::Done(left) => after == Some(
                    Machine { globals: left.globals.insert(sp, noted), ..left },
                ),
                Outcome::Leaves(block, left) => Some(block)
                    == entered.generator.early_return_block && left.stack.len() >= n ==> after
                    == Some(
                    Machine {
                        stack: left.stack.skip(left.stack.len() - n),
                        globals: left.globals.insert(sp, noted),
                        ..left
                    },
                ),
                _ => after is None,
            }
        }),
{
    reveal(CodeView::emit_all);
    reveal(is_added_to);
    reveal(GeneratorView::grew_from);
    let announced = announce_effect(start, name, kind);
    let generator = announced.generator;
    let function = function_defined(start, name, kind);
    assert(defined_type(start.generator.analysis, name, kind)->0->Fixed_0 == function);
    let types = param_types(function.args@, function.args@.len());
    let frame = generator.next_local() + types.len();
    let entered = body_entered(start, name, body, kind);
    let visited = expr_effect(words, entered, body);
    let sp = start.generator.stack_pointer;
    let begun = entered.code.function.blocks;
    let blocks = visited.code.function.blocks;
    let code = finished_code(visited, frame);
    assert(run.function == code.function);
    assert(generator.stack_pointer == sp);
    assert(visited.generator.stack_pointer == sp);
    let done = code.function.blocks;
    assert(blocks[0] == begun[0]);
    assert(begun[1].ops =~= Seq::empty());
    assert(done[0].ops =~= no_ops().push(Op::GlobalGet(sp)).push(Op::LocalSet(frame)).push(
        Op::Block(1),
    ).push(Op::LocalGet(frame)).push(Op::GlobalSet(sp)));
    assert forall|b: int, i: int|
        1 <= b < done.len() && 0 <= i < done[b].ops.len() implies keeps_to_itself(
        #[trigger] done[b].ops[i],
        frame + 1,
        2,
        Some(1nat),
    ) by {
        assert(done[b] == blocks[b]);
    }
    assert(done[1] == blocks[1]);
    assert(blocks[1].results == wasm_repr(pointee(function.returns)));
    assert(stretch(entered.code, visited.code) =~= blocks[1].ops);
    law_block_is_returned(code.function, sp, frame, run.around, machine, run.fuel);
}

/// An expression that is visited in a sequence of its own is written there and nowhere else:
/// what is written to goes on as it was, and running the new sequence in a block leaves what
/// the expression leaves. The block has the words of the expression's type as results.
pub proof fn law_block_leaves_its_expression<W: Words>(
    run: Run,
    words: &W,
    start: Progress,
    expr: SymbolicExpression,
    machine: Machine,
    then: Machine,
)
    requires
        start.failure is None,
        start.code.wf(),
        start.generator.analysis.type_of(expr) is Some,
        ({
            let entered = Progress {
                code: start.code.enter_block(wasm_repr(*start.generator.analysis.type_of(expr)->0)),
                ..start
            };
            let inside = expr_effect(words, entered, expr);
            &&& inside.failure is None
            &&& reached(inside).grew_from(reached(entered))
            &&& run.leads(entered.code, inside.code, machine, then)
        }),
        run.has_added(start.code, block_effect(words, start, expr).code),
    ensures
        ({
            let after = block_effect(words, start, expr);
            let block = start.code.function.blocks.len();
            &&& after.failure is None
            &&& after.generator == expr_effect(
                words,
                Progress {
                    code: start.code.enter_block(
                        wasm_repr(*start.generator.analysis.type_of(expr)->0),
                    ),
                    ..start
                },
                expr,
            ).generator
            &&& start.generator.analysis.type_of(expr) matches Some(ty)
            &&& after.code.function.blocks[block as int].results == wasm_repr(*ty)
            &&& forall|m: Machine| #[trigger] run.leads(start.code, after.code, m, m)
            &&& run_op(
                run.function,
                run.around,
                Op::Block(block),
                machine,
                run.fuel + 1,
            ) == Outcome::Done(then)
        }),
{
    let ty = pointee(start.generator.analysis.type_of(expr)->0);
    let entered = Progress { code: start.code.enter_block(wasm_repr(ty)), ..start };
    let inside = expr_effect(words, entered, expr);
    let after = block_effect(words, start, expr);
    let block = start.code.function.blocks.len();
    reveal(is_added_to);
    let now = inside.code.function.blocks;
    assert(now[start.code.block as int] == entered.code.function.blocks[start.code.block as int]);
    assert(written(after.code) == written(start.code));
    assert forall|m: Machine| #[trigger] run.leads(start.code, after.code, m, m) by {
        lemma_leads_aside(run, start.code, after.code, m);
    }
    assert(now[block as int].results == wasm_repr(ty));
    assert(run.function.blocks[block as int] == now[block as int]);
    assert(stretch(entered.code, inside.code) =~= now[block as int].ops);
    lemma_sequence_runs_its_ops(
        run.function,
        run.around,
        block,
        machine,
        run.fuel,
    );
}

/// The function that a contract becomes leaves words of the type of the last expression of
/// the contract that has a type, and none where no expression has one.
pub proof fn law_contract_has_the_type_of_its_last_value(
    analysis: AnalysisView,
    expressions: Seq<SymbolicExpression>,
)
    ensures
        ({
            let results = contract_results(analysis, expressions);
            ||| exists|i: int|
                {
                    &&& 0 <= i < expressions.len()
                    &&& analysis.type_of(#[trigger] expressions[i]) matches Some(ty)
                    &&& results == wasm_repr(*ty)
                    &&& forall|j: int|
                        i < j < expressions.len() ==> analysis.type_of(
                            #[trigger] expressions[j],
                        ) is None
                }
            ||| results == Seq::<WasmType>::empty() && forall|j: int|
                0 <= j < expressions.len() ==> analysis.type_of(#[trigger] expressions[j]) is None
        }),
{
    lemma_last_type(analysis, expressions, expressions.len());
}

proof fn lemma_last_type(analysis: AnalysisView, expressions: Seq<SymbolicExpression>, n: nat)
    requires
        n <= expressions.len(),
    ensures
        match last_type(analysis, expressions, n) {
            Some(ty) => exists|i: int|
                {
                    &&& 0 <= i < n
                    &&& analysis.type_of(#[trigger] expressions[i]) == Some(ty)
                    &&& forall|j: int|
                        i < j < n ==> analysis.type_of(#[trigger] expressions[j]) is None
                },
            None => forall|j: int|
                0 <= j < n ==> analysis.type_of(#[trigger] expressions[j]) is None,
        },
    decreases n,
{
    if n > 0 {
        lemma_last_type(analysis, expressions, (n - 1) as nat);
        if let Some(ty) = analysis.type_of(expressions[n - 1]) {
            assert(analysis.type_of(expressions[n - 1]) == Some(ty));
        }
    }
}

/// Whether an export of a module is its top level: a function with the given code, which
/// takes nothing.
pub open spec fn is_top_level(module: ModuleView, code: FunctionCode, i: int) -> bool {
    let (name, function) = module.exports[i];
    &&& 0 <= i < module.exports.len()
    &&& name == ".top-level"@
    &&& function < module.functions.len()
    &&& module.functions[function as int].built == Some((code, Seq::<nat>::empty()))
}

/// A contract becomes a module where its expressions can be visited and the module has a
/// memory.
pub proof fn law_contract_becomes_a_module<W: Words>(words: &W, generator: GeneratorView)
    ensures
        ({
            let visited = top_level_effect(words, generator);
            generated(words, generator) is Ok <==> visited.failure is None
                && visited.generator.module.memories.len() > 0
        }),
{
}

/// The module that a contract becomes exports, as its top level, the function that the
/// expressions of the contract were written to, which takes nothing.
pub proof fn law_top_level_is_exported<W: Words>(words: &W, generator: GeneratorView)
    requires
        generated(words, generator) is Ok,
    ensures
        exists|i: int| #[trigger]
            is_top_level(
                generated(words, generator)->Ok_0,
                top_level_effect(words, generator).code.function,
                i,
            ),
{
    let visited = top_level_effect(words, generator);
    let module = finished_module(visited);
    let last = visited.generator.module.exports.len() as int;
    assert(generated(words, generator)->Ok_0 == module);
    assert(is_top_level(
        generated(words, generator)->Ok_0,
        top_level_effect(words, generator).code.function,
        last,
    ));
}

} // verus!

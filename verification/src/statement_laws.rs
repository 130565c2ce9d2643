//! What a list of statements leaves when it runs, and with it a whole contract.
use std::rc::Rc;
use vstd::prelude::*;

use crate::analysis::{AnalysisView, SymbolicExpression};
use crate::error::Failure;
use crate::execution::{
    lemma_plain_ops_run, lemma_run_ops_twice, lemma_sequence_runs_its_ops, returned, run_ops,
    Outcome, Surroundings,
};
use crate::generator::GeneratorView;
use crate::growth::{lemma_grown_code, reached};
use crate::ir::{keeps_ops, CodeView, FunctionCode, Op, WasmType};
use crate::laws::law_drop_takes_the_value;
use crate::layout::{drops, wasm_repr};
use crate::machine::{Machine, Word};
use crate::memory_laws::words_have_types;
use crate::program::{
    contract_results, statement_list_effect, statements_effect, top_level_effect,
};
use crate::progress::Progress;
use crate::traversal::expr_effect;
use crate::types::{pointee, TypeSignature};
use crate::words::Words;

verus! {

/// The instructions of the sequence that is written to.
pub open spec fn written(code: CodeView) -> Seq<Op> {
    code.function.blocks[code.block as int].ops
}

/// The instructions that were added to the sequence that is written to.
pub open spec fn stretch(before: CodeView, after: CodeView) -> Seq<Op> {
    written(after).skip(written(before).len() as int)
}

/// The state in which a statement is visited: the value of an earlier one is dropped where
/// the statement has a value of its own.
pub open spec fn ready_for(
    start: Progress,
    statement: SymbolicExpression,
    last: Option<Rc<TypeSignature>>,
) -> Progress {
    if start.generator.analysis.type_of(statement) is Some && last is Some {
        start.emit_all(drops(wasm_repr(*last->0).len()))
    } else {
        start
    }
}

/// The later of two types that are there or not.
pub open spec fn later_type(
    last: Option<Rc<TypeSignature>>,
    ty: Option<Rc<TypeSignature>>,
) -> Option<Rc<TypeSignature>> {
    if ty is Some {
        ty
    } else {
        last
    }
}

/// The types of the words of a value that is there or not.
pub open spec fn repr_of(ty: Option<Rc<TypeSignature>>) -> Seq<WasmType> {
    match ty {
        Some(ty) => wasm_repr(*ty),
        None => Seq::empty(),
    }
}

/// Whether each statement from position `i` on leaves its own value and nothing else on the
/// stack when what was written for it runs in a function: `values` holds the words of each
/// value, and `base` is what is under them. What is written for a statement may call other
/// functions, and run blocks of the function and leave them.
pub open spec fn statements_leave_values<W: Words>(
    words: &W,
    start: Progress,
    statements: Seq<SymbolicExpression>,
    i: nat,
    last: Option<Rc<TypeSignature>>,
    values: Seq<Seq<Word>>,
    function: FunctionCode,
    around: Surroundings,
    machine: Machine,
    base: Seq<Word>,
    fuel: nat,
) -> bool
    decreases statements.len() - i,
{
    i >= statements.len() || {
        let statement = statements[i as int];
        let ty = start.generator.analysis.type_of(statement);
        let ready = ready_for(start, statement, last);
        let next = expr_effect(words, ready, statement);
        let cleared = if ty is Some && last is Some {
            Machine { stack: base, ..machine }
        } else {
            machine
        };
        let ran = run_ops(function, around, stretch(ready.code, next.code), cleared, fuel);
        &&& next.failure is None
        &&& reached(next).grew_from(reached(ready))
        &&& words_have_types(values[i as int], repr_of(ty))
        &&& ran is Done
        &&& ran->Done_0.stack == cleared.stack + values[i as int]
        &&& statements_leave_values(
            words,
            next,
            statements,
            i + 1,
            later_type(last, ty),
            values,
            function,
            around,
            ran->Done_0,
            base,
            fuel,
        )
    }
}

/// The words of the last statement from position `i` on that has a value, else those that
/// are held already.
pub open spec fn last_words<W: Words>(
    words: &W,
    start: Progress,
    statements: Seq<SymbolicExpression>,
    i: nat,
    last: Option<Rc<TypeSignature>>,
    values: Seq<Seq<Word>>,
    held: Seq<Word>,
) -> Seq<Word>
    decreases statements.len() - i,
{
    if i >= statements.len() {
        held
    } else {
        let statement = statements[i as int];
        let ty = start.generator.analysis.type_of(statement);
        last_words(
            words,
            expr_effect(words, ready_for(start, statement, last), statement),
            statements,
            i + 1,
            later_type(last, ty),
            values,
            if ty is Some {
                values[i as int]
            } else {
                held
            },
        )
    }
}

/// A list of statements leaves the value of its last statement that has one, and nothing
/// else, where each statement leaves its own value and nothing else, whatever else the
/// statements do: call functions, run blocks and leave them. `held` are the words of the
/// value that the statements before position `i` left.
pub proof fn law_last_value_stays<W: Words>(
    words: &W,
    start: Progress,
    statements: Seq<SymbolicExpression>,
    i: nat,
    last: Option<Rc<TypeSignature>>,
    values: Seq<Seq<Word>>,
    function: FunctionCode,
    around: Surroundings,
    machine: Machine,
    base: Seq<Word>,
    held: Seq<Word>,
    fuel: nat,
)
    requires
        start.failure is None,
        start.code.wf(),
        machine.stack == base + held,
        words_have_types(held, repr_of(last)),
        statements_leave_values(
            words,
            start,
            statements,
            i,
            last,
            values,
            function,
            around,
            machine,
            base,
            fuel,
        ),
    ensures
        ({
            let visited = statements_effect(words, start, statements, i, last);
            &&& visited.failure is None
            &&& visited.code.block == start.code.block
            &&& visited.code.wf()
            &&& written(start.code).is_prefix_of(written(visited.code))
            &&& run_ops(
                function,
                around,
                stretch(start.code, visited.code),
                machine,
                fuel,
            ) matches Outcome::Done(after) && after.stack == base + last_words(
                words,
                start,
                statements,
                i,
                last,
                values,
                held,
            )
        }),
    decreases statements.len() - i,
{
    let visited = statements_effect(words, start, statements, i, last);
    if i >= statements.len() {
        assert(stretch(start.code, visited.code) =~= Seq::empty());
        assert(written(start.code) =~= written(start.code).subrange(
            0,
            written(start.code).len() as int,
        ));
    } else {
        let statement = statements[i as int];
        let ty = start.generator.analysis.type_of(statement);
        let ready = ready_for(start, statement, last);
        let next = expr_effect(words, ready, statement);
        let is_dropped = ty is Some && last is Some;
        let dropped = if is_dropped {
            drops(repr_of(last).len())
        } else {
            Seq::empty()
        };
        let cleared = if is_dropped {
            Machine { stack: base, ..machine }
        } else {
            machine
        };
        let own = stretch(ready.code, next.code);
        let after = run_ops(function, around, own, cleared, fuel)->Done_0;
        let now_held = if ty is Some {
            values[i as int]
        } else {
            held
        };
        reveal(CodeView::emit_all);
        assert(written(ready.code) =~= written(start.code) + dropped);
        if is_dropped {
            law_drop_takes_the_value(pointee(last->0), machine, base, held);
        }
        assert(machine.run(dropped) == Some(cleared));
        lemma_plain_ops_run(function, around, dropped, machine, fuel);
        lemma_grown_code(reached(ready), reached(next));
        lemma_kept_prefix(ready.code, next.code);
        if !is_dropped {
            if ty is Some {
                assert(held =~= Seq::empty());
            } else {
                assert(values[i as int] =~= Seq::empty());
            }
        }
        assert(after.stack =~= base + now_held);
        law_last_value_stays(
            words,
            next,
            statements,
            i + 1,
            later_type(last, ty),
            values,
            function,
            around,
            after,
            base,
            now_held,
            fuel,
        );
        let rest = stretch(next.code, visited.code);
        assert(written(next.code) =~= written(start.code) + dropped + own);
        assert(written(visited.code) =~= written(next.code) + rest);
        assert(stretch(start.code, visited.code) =~= dropped + own + rest);
        assert(written(start.code) =~= written(visited.code).subrange(
            0,
            written(start.code).len() as int,
        ));
        lemma_run_ops_twice(function, around, dropped, own, machine, fuel);
        lemma_run_ops_twice(function, around, dropped + own, rest, machine, fuel);
    }
}

/// A list of statements has at least one.
pub proof fn law_there_is_a_statement<W: Words>(
    words: &W,
    start: Progress,
    statements: Seq<SymbolicExpression>,
)
    requires
        start.failure is None,
    ensures
        statements.len() == 0 ==> statement_list_effect(words, start, statements) == start.fail(
            Failure::InternalError("statement list must have at least one statement"@),
        ),
        statements.len() > 0 ==> statement_list_effect(words, start, statements)
            == statements_effect(words, start, statements, 0, None),
{
}

/// What was written comes first in what is written.
proof fn lemma_kept_prefix(before: CodeView, after: CodeView)
    requires
        before.wf(),
        after.block == before.block,
        keeps_ops(before.function.blocks, after.function.blocks),
    ensures
        written(before).is_prefix_of(written(after)),
        written(after) == written(before) + stretch(before, after),
{
    reveal(keeps_ops);
    let all = written(after);
    assert(after.function.blocks[before.block as int].results
        == before.function.blocks[before.block as int].results);
    assert(all =~= all.subrange(0, written(before).len() as int) + stretch(before, after));
}

/// The state in which the statements of a contract start to be visited.
pub open spec fn contract_start(generator: GeneratorView) -> Progress {
    let analysis = AnalysisView { expressions: Seq::empty(), ..generator.analysis };
    Progress::start(
        GeneratorView { analysis, ..generator },
        CodeView {
            function: FunctionCode::empty(
                Seq::empty(),
                contract_results(analysis, generator.analysis.expressions),
            ),
            block: 0,
        },
    )
}

/// The function that a contract becomes, when it is called, returns the value of the last
/// expression of the contract that has one, and nothing else, where each expression leaves
/// its own value and nothing else.
pub proof fn law_contract_leaves_its_last_value<W: Words>(
    words: &W,
    generator: GeneratorView,
    values: Seq<Seq<Word>>,
    around: Surroundings,
    machine: Machine,
    fuel: nat,
)
    requires
        machine.stack == Seq::<Word>::empty(),
        statements_leave_values(
            words,
            contract_start(generator),
            generator.analysis.expressions,
            0,
            None,
            values,
            top_level_effect(words, generator).code.function,
            around,
            machine,
            Seq::empty(),
            fuel,
        ),
    ensures
        ({
            let visited = top_level_effect(words, generator);
            &&& visited.failure is None
            &&& returned(visited.code.function, around, machine, fuel) matches Some(after)
                && after.stack == last_words(
                words,
                contract_start(generator),
                generator.analysis.expressions,
                0,
                None,
                values,
                Seq::empty(),
            )
        }),
{
    let visited = top_level_effect(words, generator);
    let start = contract_start(generator);
    let function = visited.code.function;
    assert(Seq::<Word>::empty() + Seq::<Word>::empty() =~= Seq::<Word>::empty());
    law_last_value_stays(
        words,
        start,
        generator.analysis.expressions,
        0,
        None,
        values,
        function,
        around,
        machine,
        Seq::empty(),
        Seq::empty(),
        fuel,
    );
    let ops = stretch(start.code, visited.code);
    assert(ops =~= function.blocks[0].ops);
    lemma_sequence_runs_its_ops(function, around, 0, machine, fuel);
    let held = last_words(
        words,
        start,
        generator.analysis.expressions,
        0,
        None,
        values,
        Seq::empty(),
    );
    assert(Seq::<Word>::empty() + held =~= held);
}

} // verus!

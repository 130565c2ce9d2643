//! What calls of functions of the contract leave when they run, and what leaving a function
//! early does.
use vstd::prelude::*;

use crate::analysis::{lookup, AnalysisView};
use crate::calls::{
    block_call_effect, copy_ops, copy_result_effect, log_i32_ops, log_i64_ops, public_call_effect,
    read_only_call_effect, reserve_ops, return_early_effect, save_result_effect,
    settle_call_effect, user_call_effect,
};
use crate::error::Failure;
use crate::execution::{
    called, lemma_run_ops_twice, lemma_sequence_runs_its_ops, run_op, run_ops, without_locals,
    Outcome,
};
use crate::generator::{first_memory_index, GeneratorView};
use crate::ir::{group_emit, no_ops, CodeView, ModuleView, Op, WasmType};
use crate::laws::{lemma_block_call, lemma_copy, lemma_pops, lemma_pushes, lemma_reserve};
use crate::layout::wasm_repr;
use crate::layout_laws::law_first_function_is_found;
use crate::machine::{word32, Machine, Word};
use crate::memory::{locals_from, pops_into, pushes};
use crate::memory_laws::{keeps_locals, with_words};
use crate::progress::Progress;
use crate::runs::{
    lemma_leads_aside, lemma_leads_call, lemma_leads_emitted, lemma_leads_plain,
    lemma_leads_twice, lemma_run_one, Run,
};
use crate::statement_laws::stretch;
use crate::types::TypeSignature;

verus! {

broadcast use group_emit;

/// Whether a value of a type lies in memory, with its place and its length on the stack.
pub open spec fn lies_in_memory(ty: TypeSignature) -> bool {
    ||| ty is SequenceType
    ||| ty is PrincipalType
    ||| ty is CallableType
    ||| ty is TraitReferenceType
}

/// Whether the stack ends in the place and the length of bytes that are in memory, and
/// memory has room for as many bytes at the stack pointer.
pub open spec fn ends_in_a_place(machine: Machine, stack_pointer: nat) -> bool {
    let n = machine.stack.len() as int;
    &&& n >= 2
    &&& machine.stack[n - 2] matches Word::I32(from)
    &&& machine.stack[n - 1] matches Word::I32(length)
    &&& machine.globals.contains_key(stack_pointer)
    &&& machine.globals[stack_pointer] matches Word::I32(to)
    &&& from + length <= machine.memory.len()
    &&& to + length <= machine.memory.len()
    &&& to + length <= u32::MAX
}

/// Whether the bytes whose place and length the stack ends in were copied to where the stack
/// pointer was, and the stack pointer was moved past them: the stack now ends in where the
/// bytes were copied to and in their number, and nothing else in memory has changed.
pub open spec fn is_copied(before: Machine, after: Machine, stack_pointer: nat) -> bool {
    let n = before.stack.len() as int;
    let from = before.stack[n - 2]->I32_0;
    let length = before.stack[n - 1]->I32_0;
    let to = before.globals[stack_pointer]->I32_0;
    &&& after.stack == before.stack.take(n - 2).push(Word::I32(to)).push(Word::I32(length))
    &&& after.globals == before.globals.insert(stack_pointer, Word::I32((to + length) as u32))
    &&& after.host == before.host
    &&& after.memory.len() == before.memory.len()
    &&& forall|i: int|
        0 <= i < length ==> #[trigger] after.memory[to + i] == before.memory[from + i]
    &&& forall|i: int|
        0 <= i < before.memory.len() && !(to <= i < to + length) ==> #[trigger] after.memory[i]
            == before.memory[i]
}

/// Whether the machine is the same but for locals.
pub open spec fn same_but_locals(before: Machine, after: Machine) -> bool {
    &&& after.stack == before.stack
    &&& after.globals == before.globals
    &&& after.memory == before.memory
    &&& after.host == before.host
}

/// Whether the code of a call leaves the result of the function in the caller's own frame.
/// `ended` is the machine once the function has returned and, where the host began the call,
/// has ended it: a result that lies in memory is copied to where the stack pointer is then,
/// so that no later room on the call stack overlaps it, and any other result is left as it
/// is. Locals that were there before the call are left alone.
pub open spec fn keeps_result(
    run: Run,
    start: Progress,
    after: Progress,
    ty: TypeSignature,
    machine: Machine,
    ended: Machine,
) -> bool {
    &&& after.failure is None
    &&& exists|then: Machine|
        {
            &&& #[trigger] run.leads(start.code, after.code, machine, then)
            &&& keeps_locals(machine, then, start.generator.next_local())
            &&& if lies_in_memory(ty) {
                is_copied(ended, then, start.generator.stack_pointer)
            } else {
                same_but_locals(ended, then)
            }
        }
}

/// Whether a result can be kept: its type has values, and where it lies in memory the module
/// has one and there is room.
pub open spec fn can_keep_result(
    generator: GeneratorView,
    ty: TypeSignature,
    ended: Machine,
) -> bool {
    &&& ty !is ListUnionType
    &&& lies_in_memory(ty) ==> first_memory_index(generator.module) is Some && ends_in_a_place(
        ended,
        generator.stack_pointer,
    )
}

/// Copying a result, or leaving it.
proof fn lemma_result_is_kept(
    run: Run,
    start: Progress,
    called: Progress,
    ty: TypeSignature,
    machine: Machine,
    ended: Machine,
    reached: Machine,
)
    requires
        called.failure is None,
        start.generator.next_local() <= called.generator.next_local(),
        start.generator.stack_pointer == called.generator.stack_pointer,
        run.leads(start.code, called.code, machine, reached),
        same_but_locals(ended, reached),
        keeps_locals(machine, reached, start.generator.next_local()),
        can_keep_result(called.generator, ty, ended),
    ensures
        keeps_result(run, start, copy_result_effect(called, ty), ty, machine, ended),
{
    let after = copy_result_effect(called, ty);
    if lies_in_memory(ty) {
        let n = called.generator.next_local();
        let sp = called.generator.stack_pointer;
        let memory = first_memory_index(called.generator.module)->0;
        let k = ended.stack.len() as int;
        let rest = ended.stack.take(k - 2);
        let from = ended.stack[k - 2]->I32_0;
        let length = ended.stack[k - 1]->I32_0;
        let to = ended.globals[sp]->I32_0;
        assert(reached.stack =~= rest.push(Word::I32(from)).push(Word::I32(length)));
        lemma_reserve(reached, rest, from, length, to, n, sp);
        let roomy = reached.run(reserve_ops(n, sp))->0;
        lemma_copy(roomy, from, length, to, n, memory);
        let then = roomy.run(copy_ops(n, memory))->0;
        let between = called.code.emit_all(reserve_ops(n, sp));
        lemma_leads_plain(run, called.code, reserve_ops(n, sp), reached, roomy);
        lemma_leads_plain(run, between, copy_ops(n, memory), roomy, then);
        lemma_leads_twice(run, called.code, between, after.code, reached, roomy, then);
        lemma_leads_twice(run, start.code, called.code, after.code, machine, reached, then);
        assert forall|i: int| 0 <= i < length implies #[trigger] then.memory[to + i]
            == ended.memory[from + i] by {
            assert(ended.memory.subrange(from as int, from + length)[i] == ended.memory[from + i]);
        }
        assert(is_copied(ended, then, sp));
    } else {
        assert(after == called);
        assert(run.leads(start.code, after.code, machine, reached));
    }
}

/// A call of a private function leaves the result of that function.
pub proof fn law_private_call_leaves_its_result(
    run: Run,
    start: Progress,
    ty: TypeSignature,
    name: Seq<char>,
    machine: Machine,
)
    requires
        start.failure is None,
        start.code.wf(),
        !start.generator.analysis.public_functions.contains_key(name),
        !start.generator.analysis.read_only_functions.contains_key(name),
        start.generator.analysis.private_functions.contains_key(name),
        start.generator.module.has_function(name),
        called(run.around, start.generator.module.function(name), machine) is Some,
        can_keep_result(
            start.generator,
            ty,
            called(run.around, start.generator.module.function(name), machine)->0,
        ),
    ensures
        keeps_result(
            run,
            start,
            user_call_effect(start, ty, name),
            ty,
            machine,
            called(run.around, start.generator.module.function(name), machine)->0,
        ),
{
    reveal(user_call_effect);
    let ended = called(run.around, start.generator.module.function(name), machine)->0;
    lemma_leads_call(run, start, name, machine);
    lemma_result_is_kept(run, start, start.call(name), ty, machine, ended, ended);
}

/// The machine after a read-only call: the host begins it, the function is called with what
/// is on the stack, and the host rolls back what it did.
pub open spec fn read_only_called(
    run: Run,
    generator: GeneratorView,
    name: Seq<char>,
    machine: Machine,
) -> Option<Machine> {
    let module = generator.module;
    match called(run.around, module.function("stdlib.begin_read_only_call"@), machine) {
        Some(begun) => match called(run.around, module.function(name), begun) {
            Some(ended) => called(run.around, module.function("stdlib.roll_back_call"@), ended),
            None => None,
        },
        None => None,
    }
}

/// A call of a read-only function leaves the result of that function, and what the function
/// did is rolled back.
pub proof fn law_read_only_call_leaves_its_result(
    run: Run,
    start: Progress,
    ty: TypeSignature,
    name: Seq<char>,
    machine: Machine,
)
    requires
        start.failure is None,
        start.code.wf(),
        !start.generator.analysis.public_functions.contains_key(name),
        start.generator.analysis.read_only_functions.contains_key(name),
        start.generator.module.has_function("stdlib.begin_read_only_call"@),
        start.generator.module.has_function(name),
        start.generator.module.has_function("stdlib.roll_back_call"@),
        read_only_called(run, start.generator, name, machine) is Some,
        can_keep_result(
            start.generator,
            ty,
            read_only_called(run, start.generator, name, machine)->0,
        ),
    ensures
        keeps_result(
            run,
            start,
            user_call_effect(start, ty, name),
            ty,
            machine,
            read_only_called(run, start.generator, name, machine)->0,
        ),
{
    reveal(user_call_effect);
    let module = start.generator.module;
    let begun = start.call("stdlib.begin_read_only_call"@);
    let m1 = called(run.around, module.function("stdlib.begin_read_only_call"@), machine)->0;
    lemma_leads_call(run, start, "stdlib.begin_read_only_call"@, machine);
    let ended = begun.call(name);
    let m2 = called(run.around, module.function(name), m1)->0;
    lemma_leads_call(run, begun, name, m1);
    lemma_leads_twice(run, start.code, begun.code, ended.code, machine, m1, m2);
    let settled = ended.call("stdlib.roll_back_call"@);
    let m3 = called(run.around, module.function("stdlib.roll_back_call"@), m2)->0;
    lemma_leads_call(run, ended, "stdlib.roll_back_call"@, m2);
    lemma_leads_twice(run, start.code, ended.code, settled.code, machine, m2, m3);
    assert(settled == read_only_call_effect(start, name));
    lemma_result_is_kept(run, start, settled, ty, machine, m3, m3);
}

/// The machine when a public function has returned: the host began the call, and the
/// function was called with what is on the stack.
pub open spec fn public_function_returned(
    run: Run,
    generator: GeneratorView,
    name: Seq<char>,
    machine: Machine,
) -> Option<Machine> {
    let module = generator.module;
    match called(run.around, module.function("stdlib.begin_public_call"@), machine) {
        Some(begun) => called(run.around, module.function(name), begun),
        None => None,
    }
}

/// The machine after the host has ended a public call whose result is `words`: the call is
/// committed where the first word is not zero, and else rolled back, with `rest` on the
/// stack, which the host leaves alone.
pub open spec fn public_call_ended(
    run: Run,
    generator: GeneratorView,
    ended: Machine,
    rest: Seq<Word>,
    words: Seq<Word>,
) -> Option<Machine> {
    let name = if words[0] != Word::I32(0) {
        "stdlib.commit_call"@
    } else {
        "stdlib.roll_back_call"@
    };
    called(run.around, generator.module.function(name), Machine { stack: rest, ..ended })
}

/// What the code that settles a public call does.
proof fn lemma_call_is_settled(
    run: Run,
    start: Progress,
    rest: Seq<Word>,
    words: Seq<Word>,
    first: nat,
    machine: Machine,
)
    requires
        start.failure is None,
        start.code.wf(),
        start.generator.module.has_function("stdlib.commit_call"@),
        start.generator.module.has_function("stdlib.roll_back_call"@),
        words.len() > 0,
        run.fuel > 0,
        run.has_added(
            start.code,
            settle_call_effect(start, locals_from(first, words.len()).reverse()).code,
        ),
        machine.stack == rest,
        forall|local: nat|
            first <= local < first + words.len() ==> #[trigger] machine.locals.contains_key(local)
                && machine.locals[local] == words[words.len() - 1 - (local - first)],
        public_call_ended(run, start.generator, machine, rest, words) is Some,
        public_call_ended(run, start.generator, machine, rest, words)->0.stack == rest,
    ensures
        ({
            let after = settle_call_effect(start, locals_from(first, words.len()).reverse());
            let ended = public_call_ended(run, start.generator, machine, rest, words)->0;
            &&& after.failure is None
            &&& after.generator == start.generator
            &&& run.leads(start.code, after.code, machine, with_words(ended, words))
        }),
{
    let k = words.len();
    let locals = locals_from(first, k).reverse();
    let after = settle_call_effect(start, locals);
    let commit = start.code.function.blocks.len();
    let committed = block_call_effect(start, "stdlib.commit_call"@);
    let settled = block_call_effect(committed, "stdlib.roll_back_call"@);
    lemma_block_call(start, "stdlib.commit_call"@);
    lemma_block_call(committed, "stdlib.roll_back_call"@);
    let before = start.code.function.blocks;
    let between = committed.code.function.blocks;
    let blocks = settled.code.function.blocks;
    let block = start.code.block as int;
    assert(between.take(commit as int)[block] == before[block]);
    assert(blocks.take(commit as int + 1)[block] == between[block]);
    assert(blocks.take(commit as int + 1)[commit as int] == between[commit as int]);
    lemma_leads_aside(run, start.code, settled.code, machine);
    // The sequences that were added are those that run.
    let chosen = seq![
        Op::LocalGet(locals[0]),
        Op::IfElse { consequent: commit, alternative: commit + 1 },
    ];
    let listed = no_ops()
        .push(Op::LocalGet(locals[0]))
        .push(Op::IfElse { consequent: commit, alternative: commit + 1 });
    assert(listed =~= chosen);
    let tested = settled.code.emit_all(chosen);
    assert(after.code == tested.emit_all(pushes(locals)));
    assert(after.code.function.blocks[commit as int] == blocks[commit as int]
        && after.code.function.blocks[commit as int + 1] == blocks[commit as int + 1]) by {
        reveal(CodeView::emit_all);
    }
    assert(run.function.blocks[commit as int] == blocks[commit as int]);
    assert(run.function.blocks[commit as int + 1] == blocks[commit as int + 1]);
    // The first word of the result decides.
    assert(locals[0] == first + (k - 1));
    assert(machine.locals.contains_key(locals[0]));
    let pushed = machine.push(words[0]);
    assert(pushed.pop() =~= machine);
    let ended = public_call_ended(run, start.generator, machine, rest, words)->0;
    let which = if words[0] != Word::I32(0) {
        commit
    } else {
        commit + 1
    };
    let name = if words[0] != Word::I32(0) {
        "stdlib.commit_call"@
    } else {
        "stdlib.roll_back_call"@
    };
    let op = Op::Call(start.generator.module.function(name));
    let inner = Run { fuel: (run.fuel - 1) as nat, ..run };
    assert(run.function.blocks[which as int].ops == seq![op]);
    lemma_sequence_runs_its_ops(run.function, run.around, which, machine, inner.fuel);
    lemma_run_one(inner, op, machine);
    assert(Machine { stack: rest, ..machine } == machine);
    assert(run_op(run.function, run.around, chosen[1], pushed, run.fuel) == Outcome::Done(ended));
    lemma_run_one(run, chosen[0], machine);
    lemma_run_one(run, chosen[1], pushed);
    lemma_run_ops_twice(
        run.function,
        run.around,
        seq![chosen[0]],
        seq![chosen[1]],
        machine,
        run.fuel,
    );
    assert(seq![chosen[0]] + seq![chosen[1]] =~= chosen);
    lemma_leads_emitted(run, settled.code, chosen, machine, ended);
    lemma_leads_twice(run, start.code, settled.code, tested, machine, machine, ended);
    // The result is pushed again.
    assert forall|i: int| 0 <= i < locals.len() implies ended.locals.contains_key(
        #[trigger] locals[i],
    ) && ended.locals[locals[i]] == words[i] by {
        assert(locals[i] == first + (k - 1 - i));
        assert(machine.locals.contains_key(locals[i]));
    }
    lemma_pushes(ended, locals, words, k);
    assert(locals.take(k as int) =~= locals);
    assert(words.take(k as int) =~= words);
    lemma_leads_plain(run, tested, pushes(locals), ended, with_words(ended, words));
    lemma_leads_twice(
        run,
        start.code,
        tested,
        after.code,
        machine,
        ended,
        with_words(ended, words),
    );
}

/// A call of a public function is begun by the host, then the function is called with what
/// is on the stack, then the host commits what the function did where the first word of the
/// result is not zero and else rolls it back, and the result of the function is left.
pub proof fn law_public_call_leaves_its_result(
    run: Run,
    start: Progress,
    ty: TypeSignature,
    name: Seq<char>,
    machine: Machine,
    rest: Seq<Word>,
    words: Seq<Word>,
)
    requires
        start.failure is None,
        start.code.wf(),
        start.generator.analysis.public_functions.contains_key(name),
        start.generator.module.has_function("stdlib.begin_public_call"@),
        start.generator.module.has_function(name),
        start.generator.module.has_function("stdlib.commit_call"@),
        start.generator.module.has_function("stdlib.roll_back_call"@),
        words.len() > 0,
        words.len() == wasm_repr(ty).len(),
        public_function_returned(run, start.generator, name, machine) matches Some(ended)
            && ended.stack == rest + words && (public_call_ended(
            run,
            start.generator,
            ended,
            rest,
            words,
        ) matches Some(settled) && settled.stack == rest && can_keep_result(
            start.generator,
            ty,
            with_words(settled, words),
        )),
        run.fuel > 0,
        run.has_added(start.code, user_call_effect(start, ty, name).code),
    ensures
        ({
            let ended = public_function_returned(run, start.generator, name, machine)->0;
            let settled = public_call_ended(run, start.generator, ended, rest, words)->0;
            keeps_result(
                run,
                start,
                user_call_effect(start, ty, name),
                ty,
                machine,
                with_words(settled, words),
            )
        }),
{
    reveal(user_call_effect);
    let module = start.generator.module;
    let n = start.generator.next_local();
    let k = words.len();
    let begun = start.call("stdlib.begin_public_call"@);
    let m1 = called(run.around, module.function("stdlib.begin_public_call"@), machine)->0;
    lemma_leads_call(run, start, "stdlib.begin_public_call"@, machine);
    let returned = begun.call(name);
    let m2 = called(run.around, module.function(name), m1)->0;
    lemma_leads_call(run, begun, name, m1);
    lemma_leads_twice(run, start.code, begun.code, returned.code, machine, m1, m2);
    let saved = save_result_effect(returned, ty);
    lemma_pops(m2, rest, words, n, k);
    let popped = m2.run(pops_into(n, k))->0;
    assert(words.take(0) =~= Seq::empty());
    assert(popped.stack =~= rest);
    lemma_leads_plain(run, returned.code, pops_into(n, k), m2, popped);
    lemma_leads_twice(run, start.code, returned.code, saved.code, machine, m2, popped);
    let locals = locals_from(n, k).reverse();
    let settled = settle_call_effect(saved, locals);
    assert(settled == public_call_effect(start, ty, name));
    let ended = public_call_ended(run, start.generator, m2, rest, words)->0;
    let after = user_call_effect(start, ty, name);
    // The locals do not matter to the host.
    let reached = Machine { locals: popped.locals, ..ended };
    assert(public_call_ended(run, saved.generator, popped, rest, words) == Some(reached)) by {
        assert(without_locals(Machine { stack: rest, ..popped })
            =~= without_locals(Machine { stack: rest, ..m2 }));
    }
    lemma_added_blocks(run, start, saved, settled, ty);
    lemma_call_is_settled(run, saved, rest, words, n, popped);
    lemma_leads_twice(
        run,
        start.code,
        saved.code,
        settled.code,
        machine,
        popped,
        with_words(reached, words),
    );
    lemma_result_is_kept(
        run,
        start,
        settled,
        ty,
        machine,
        with_words(ended, words),
        with_words(reached, words),
    );
}

/// The sequences that settling a call adds are those that the whole call adds.
proof fn lemma_added_blocks(
    run: Run,
    start: Progress,
    saved: Progress,
    settled: Progress,
    ty: TypeSignature,
)
    requires
        settled.code.wf(),
        settled.code.block == start.code.block,
        start.code.wf(),
        saved.code.function.blocks.len() == start.code.function.blocks.len(),
        run.has_added(start.code, copy_result_effect(settled, ty).code),
    ensures
        run.has_added(saved.code, settled.code),
{
    reveal(CodeView::emit_all);
    let after = copy_result_effect(settled, ty).code;
    let now = settled.code.function.blocks;
    let all = after.function.blocks;
    assert(all.len() == now.len());
    assert forall|b: int| start.code.function.blocks.len() <= b < now.len() implies all[b]
        == now[b] by {}
}

/// The locals that a call adds have the types of what is put into them: those that a result
/// is saved in, the top of the stack first, have the types of its words, and those for the
/// place and the length of a result and for where it is copied to are 32 bits wide. Nothing
/// else of the generator changes.
pub proof fn law_call_adds_locals_of_the_right_types(
    start: Progress,
    ty: TypeSignature,
    name: Seq<char>,
    i: nat,
)
    requires
        start.failure is None,
        user_call_effect(start, ty, name).failure is None,
    ensures
        ({
            let before = start.generator.module.locals;
            let after = user_call_effect(start, ty, name).generator;
            let locals = after.module.locals;
            let saved = if start.generator.analysis.public_functions.contains_key(name) {
                wasm_repr(ty).len()
            } else {
                0
            };
            let copied: nat = if lies_in_memory(ty) {
                3
            } else {
                0
            };
            &&& after == (GeneratorView {
                module: ModuleView { locals, ..start.generator.module },
                ..start.generator
            })
            &&& locals.len() == before.len() + saved + copied
            &&& i < before.len() ==> locals[i as int] == before[i as int]
            &&& i < saved ==> locals[(before.len() + i) as int] == wasm_repr(ty)[saved - 1 - i]
            &&& i < copied ==> locals[(before.len() + saved + i) as int] == WasmType::I32
        }),
{
    reveal(user_call_effect);
}

/// The type that is found for a function is that of the function that a call of its name
/// calls.
pub proof fn law_type_is_that_of_the_called_function(analysis: AnalysisView, name: Seq<char>)
    ensures
        ({
            let public = lookup(analysis.public_functions, name);
            let read_only = lookup(analysis.read_only_functions, name);
            let private = lookup(analysis.private_functions, name);
            let found = analysis.function_type(name);
            &&& public is Some ==> found == public
            &&& public is None && read_only is Some ==> found == read_only
            &&& public is None && read_only is None ==> found == private
        }),
{
}

/// A name that no function of the contract has cannot be called.
pub proof fn law_unknown_function_is_not_called(start: Progress, ty: TypeSignature, name: Seq<char>)
    requires
        !start.generator.analysis.public_functions.contains_key(name),
        !start.generator.analysis.read_only_functions.contains_key(name),
        !start.generator.analysis.private_functions.contains_key(name),
    ensures
        user_call_effect(start, ty, name) == start.fail(
            Failure::TypeError("function not found: "@ + name),
        ),
{
    reveal(user_call_effect);
}

/// A function that the module does not have cannot be called, whoever calls it.
pub proof fn law_missing_function_is_not_called(start: Progress, name: Seq<char>)
    requires
        start.failure is None,
        forall|i: int|
            0 <= i < start.generator.module.functions.len() ==> (
            #[trigger] start.generator.module.functions[i]).name != Some(name),
    ensures
        start.call(name) == start.fail(
            Failure::InternalError("function not found: "@ + name),
        ),
{
    law_first_function_is_found(start.generator.module.functions, name);
}

/// A call whose result is of a type that no value has cannot be visited.
pub proof fn law_result_must_have_values(start: Progress, name: Seq<char>)
    requires
        start.failure is None,
    ensures
        user_call_effect(start, TypeSignature::ListUnionType, name).failure is Some,
{
    reveal(user_call_effect);
}

/// Logging hands the number on top of the stack to the function that logs, as a number of 64
/// bits, whether it is one of 32 or of 64 bits.
pub proof fn law_number_is_logged(
    run: Run,
    module: ModuleView,
    rest: Seq<Word>,
    number: u32,
    machine: Machine,
)
    requires
        called(
            run.around,
            module.function("log"@),
            Machine { stack: rest.push(Word::I64(number as u64)), ..machine },
        ) is Some,
    ensures
        ({
            let wide = Machine { stack: rest.push(Word::I64(number as u64)), ..machine };
            let narrow = Machine { stack: rest.push(Word::I32(number)), ..machine };
            let logged = called(run.around, module.function("log"@), wide)->0;
            &&& run_ops(run.function, run.around, log_i64_ops(module), wide, run.fuel)
                == Outcome::Done(logged)
            &&& run_ops(run.function, run.around, log_i32_ops(module), narrow, run.fuel)
                == Outcome::Done(logged)
        }),
{
    let wide = Machine { stack: rest.push(Word::I64(number as u64)), ..machine };
    let narrow = Machine { stack: rest.push(Word::I32(number)), ..machine };
    let log = Op::Call(module.function("log"@));
    let extend = Op::I64ExtendUI32;
    assert(log_i64_ops(module) =~= seq![log]);
    assert(log_i32_ops(module) =~= seq![extend] + seq![log]);
    lemma_run_one(run, log, wide);
    lemma_run_one(run, extend, narrow);
    assert(narrow.stack.drop_last() =~= rest);
    lemma_run_ops_twice(run.function, run.around, seq![extend], seq![log], narrow, run.fuel);
}

/// Leaving a function early leaves the block of its body with all that is on the stack.
pub proof fn law_early_return_leaves_the_body(
    run: Run,
    start: Progress,
    machine: Machine,
    body: nat,
)
    requires
        start.failure is None,
        start.code.wf(),
        start.generator.early_return_block == Some(body),
    ensures
        ({
            let after = return_early_effect(start);
            &&& after.failure is None
            &&& after.generator == start.generator
            &&& run.added(start.code, after.code, machine) == Outcome::Leaves(body, machine)
        }),
{
    reveal(CodeView::emit_all);
    let after = return_early_effect(start);
    let op = Op::Br(body);
    assert(no_ops().push(op) =~= seq![op]);
    assert(stretch(start.code, after.code) =~= seq![op]);
    lemma_run_one(run, op, machine);
}

/// Outside of functions there is nothing to leave: the host is told of the error, and then
/// the contract stops.
pub proof fn law_early_return_stops_the_contract(run: Run, start: Progress, machine: Machine)
    requires
        start.failure is None,
        start.code.wf(),
        start.generator.early_return_block is None,
        start.generator.module.has_function("stdlib.runtime-error"@),
    ensures
        ({
            let after = return_early_effect(start);
            let function = start.generator.module.function("stdlib.runtime-error"@);
            let ops = stretch(start.code, after.code);
            &&& after.failure is None
            &&& after.generator == start.generator
            &&& run.added(start.code, after.code, machine) is Stops
            &&& ops.len() > 0
            &&& called(run.around, function, machine.push(Word::I32(7))) matches Some(told)
                ==> run_ops(run.function, run.around, ops.drop_last(), machine, run.fuel)
                == Outcome::Done(told)
        }),
{
    reveal(CodeView::emit);
    reveal(CodeView::emit_all);
    let after = return_early_effect(start);
    let function = start.generator.module.function("stdlib.runtime-error"@);
    let first = seq![Op::I32Const(7)];
    let second = seq![Op::Call(function)];
    let last = seq![Op::Unreachable];
    assert(no_ops().push(Op::I32Const(7)) =~= first);
    assert(no_ops().push(Op::Unreachable) =~= last);
    let ops = stretch(start.code, after.code);
    assert(ops =~= first + second + last);
    assert(ops.drop_last() =~= first + second);
    lemma_run_one(run, Op::I32Const(7), machine);
    let pushed = machine.push(Word::I32(7));
    assert(word32(7) == 7);
    lemma_run_one(run, Op::Call(function), pushed);
    lemma_run_ops_twice(run.function, run.around, first, second, machine, run.fuel);
    lemma_run_ops_twice(run.function, run.around, first + second, last, machine, run.fuel);
    if let Some(told) = called(run.around, function, pushed) {
        lemma_run_one(run, Op::Unreachable, told);
    }
}

} // verus!

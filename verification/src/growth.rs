//! How the generator and the function that is being built grow while something is visited.
use vstd::prelude::*;

use crate::analysis::AnalysisView;
use crate::generator::GeneratorView;
use crate::ir::{keeps_ops, CodeView, Op, WasmType};
use crate::progress::Progress;

verus! {

/// Whether an instruction keeps to what is its own: it writes only locals from `first_local`
/// on, runs only sequences from `first_block` on, and leaves only blocks that run these, or
/// the block that an early return leaves.
pub open spec fn keeps_to_itself(
    op: Op,
    first_local: nat,
    first_block: nat,
    exit: Option<nat>,
) -> bool {
    match op {
        Op::LocalSet(local) | Op::LocalTee(local) => first_local <= local,
        Op::Block(block) | Op::Loop(block) => first_block <= block,
        Op::IfElse { consequent, alternative } => first_block <= consequent && first_block
            <= alternative,
        Op::Br(block) | Op::BrIf(block) => first_block <= block || exit == Some(block),
        Op::BrTable { blocks, default } => {
            &&& first_block <= default || exit == Some(default)
            &&& forall|i: int|
                0 <= i < blocks.len() ==> first_block <= #[trigger] blocks[i] || exit == Some(
                    blocks[i],
                )
        },
        Op::Return => false,
        _ => true,
    }
}

/// Whether the instructions of a list from position `start` on keep to themselves.
pub open spec fn all_keep_to_themselves(
    ops: Seq<Op>,
    start: nat,
    first_local: nat,
    first_block: nat,
    exit: Option<nat>,
) -> bool {
    forall|i: int|
        start <= i < ops.len() ==> keeps_to_itself(
            #[trigger] ops[i],
            first_local,
            first_block,
            exit,
        )
}

/// Whether code comes from other code by writing to the same sequence and to new ones only,
/// with instructions that keep to themselves.
#[verifier::opaque]
pub open spec fn is_added_to(
    before: CodeView,
    after: CodeView,
    first_local: nat,
    exit: Option<nat>,
) -> bool {
    let was = before.function.blocks;
    let now = after.function.blocks;
    &&& after.block == before.block
    &&& was.len() <= now.len()
    &&& forall|b: int|
        0 <= b < now.len() ==> if b >= was.len() {
            all_keep_to_themselves((#[trigger] now[b]).ops, 0, first_local, was.len(), exit)
        } else if b == before.block {
            &&& now[b].results == was[b].results
            &&& was[b].ops.len() <= now[b].ops.len()
            &&& forall|i: int|
                0 <= i < was[b].ops.len() ==> #[trigger] now[b].ops[i] == was[b].ops[i]
            &&& all_keep_to_themselves(
                now[b].ops,
                was[b].ops.len(),
                first_local,
                was.len(),
                exit,
            )
        } else {
            now[b] == was[b]
        }
}

/// The generator and the function that is being built.
pub struct Stage {
    pub generator: GeneratorView,
    pub code: CodeView,
}

/// The stage of a generator and a function.
pub open spec fn stage(generator: GeneratorView, code: CodeView) -> Stage {
    Stage { generator, code }
}

impl Stage {
    /// Whether this stage can come from `before` by visiting something. New instructions
    /// write only new locals and run only new sequences, and what they leave is new too,
    /// but for an early return.
    pub open spec fn grew_from(self, before: Stage) -> bool {
        &&& self.generator.grew_from(before.generator)
        &&& is_added_to(
            before.code,
            self.code,
            before.generator.next_local(),
            before.generator.early_return_block,
        )
    }
}

/// A stage comes from itself.
pub proof fn lemma_no_growth(stage: Stage)
    ensures
        stage.grew_from(stage),
{
    reveal(GeneratorView::grew_from);
    reveal(is_added_to);
}

/// What keeps to less keeps to more.
proof fn lemma_keeps_to_more(
    op: Op,
    first_local: nat,
    first_block: nat,
    exit: Option<nat>,
    lower_local: nat,
    lower_block: nat,
    other_exit: Option<nat>,
)
    requires
        keeps_to_itself(op, first_local, first_block, exit),
        lower_local <= first_local,
        lower_block <= first_block,
        exit == other_exit || exit is None,
    ensures
        keeps_to_itself(op, lower_local, lower_block, other_exit),
{
}

/// A generator that grew twice grew.
pub proof fn lemma_generator_grew_twice(
    first: GeneratorView,
    second: GeneratorView,
    third: GeneratorView,
)
    requires
        second.grew_from(first),
        third.grew_from(second),
    ensures
        third.grew_from(first),
{
    reveal(GeneratorView::grew_from);
    let (a, b, c) = (first.module, second.module, third.module);
    assert forall|i: int| 0 <= i < a.data.len() implies a.data[i] == c.data[i] by {
        assert(b.data.subrange(0, a.data.len() as int)[i] == a.data[i]);
        assert(c.data.subrange(0, b.data.len() as int)[i] == b.data[i]);
    }
    assert(a.data =~= c.data.subrange(0, a.data.len() as int));
    assert forall|i: int| 0 <= i < a.functions.len() implies a.functions[i] == c.functions[i] by {
        assert(b.functions.subrange(0, a.functions.len() as int)[i] == a.functions[i]);
        assert(c.functions.subrange(0, b.functions.len() as int)[i] == b.functions[i]);
    }
    assert(a.functions =~= c.functions.subrange(0, a.functions.len() as int));
}

/// What grew twice grew.
pub broadcast proof fn lemma_grew_twice(first: Stage, second: Stage, third: Stage)
    requires
        #[trigger] second.grew_from(first),
        #[trigger] third.grew_from(second),
    ensures
        third.grew_from(first),
{
    lemma_generator_grew_twice(first.generator, second.generator, third.generator);
    reveal(GeneratorView::grew_from);
    reveal(is_added_to);
    let a = first.code.function.blocks;
    let b = second.code.function.blocks;
    let c = third.code.function.blocks;
    let la = first.generator.next_local();
    let lb = second.generator.next_local();
    let ea = first.generator.early_return_block;
    let eb = second.generator.early_return_block;
    assert forall|k: int, i: int|
        0 <= k < c.len() && 0 <= i < c[k].ops.len() && (k >= b.len() || (k == first.code.block && i
            >= b[k].ops.len())) implies keeps_to_itself(
        #[trigger] c[k].ops[i],
        la,
        a.len(),
        ea,
    ) by {
        lemma_keeps_to_more(c[k].ops[i], lb, b.len(), eb, la, a.len(), ea);
    }
    assert forall|k: int| 0 <= k < c.len() implies if k >= a.len() {
        all_keep_to_themselves((#[trigger] c[k]).ops, 0, la, a.len(), ea)
    } else if k == first.code.block {
        &&& c[k].results == a[k].results
        &&& a[k].ops.len() <= c[k].ops.len()
        &&& forall|i: int| 0 <= i < a[k].ops.len() ==> #[trigger] c[k].ops[i] == a[k].ops[i]
        &&& all_keep_to_themselves(c[k].ops, a[k].ops.len(), la, a.len(), ea)
    } else {
        c[k] == a[k]
    } by {
        if k < b.len() {
            let ops = b[k].ops;
            assert forall|i: int| 0 <= i < ops.len() implies #[trigger] c[k].ops[i] == ops[i] by {
            }
            assert forall|i: int| ops.len() <= i < c[k].ops.len() implies keeps_to_itself(
                #[trigger] c[k].ops[i],
                la,
                a.len(),
                ea,
            ) by {
            }
            if k < a.len() && k == first.code.block {
                assert forall|i: int| 0 <= i < a[k].ops.len() implies #[trigger] c[k].ops[i]
                    == a[k].ops[i] by {
                    assert(c[k].ops[i] == b[k].ops[i]);
                }
                assert forall|i: int| a[k].ops.len() <= i < c[k].ops.len() implies keeps_to_itself(
                    #[trigger] c[k].ops[i],
                    la,
                    a.len(),
                    ea,
                ) by {
                    if i < ops.len() {
                        assert(c[k].ops[i] == b[k].ops[i]);
                    }
                }
            } else if k >= a.len() {
                assert forall|i: int| 0 <= i < c[k].ops.len() implies keeps_to_itself(
                    #[trigger] c[k].ops[i],
                    la,
                    a.len(),
                    ea,
                ) by {
                    if i < ops.len() {
                        assert(c[k].ops[i] == b[k].ops[i]);
                    }
                }
            }
        }
    }
}

/// More instructions, which keep to themselves since an earlier stage.
pub proof fn lemma_emitted_since(before: Stage, now: Stage, ops: Seq<Op>)
    requires
        now.grew_from(before),
        now.code.wf(),
        all_keep_to_themselves(
            ops,
            0,
            before.generator.next_local(),
            before.code.function.blocks.len(),
            before.generator.early_return_block,
        ),
    ensures
        stage(now.generator, now.code.emit_all(ops)).grew_from(before),
{
    reveal(CodeView::emit_all);
    reveal(is_added_to);
    let was = now.code.function.blocks[now.code.block as int].ops;
    let after = now.code.emit_all(ops).function.blocks[now.code.block as int].ops;
    assert forall|i: int| was.len() <= i < after.len() implies #[trigger] after[i] == ops[i
        - was.len()] by {
    }
    let blocks = now.code.emit_all(ops).function.blocks;
    assert forall|b: int| 0 <= b < blocks.len() && b != now.code.block implies #[trigger] blocks[b]
        == now.code.function.blocks[b] by {
    }
}

/// More instructions, which keep to themselves.
pub proof fn lemma_emitted(generator: GeneratorView, code: CodeView, ops: Seq<Op>)
    requires
        code.wf(),
        all_keep_to_themselves(
            ops,
            0,
            generator.next_local(),
            code.function.blocks.len(),
            generator.early_return_block,
        ),
    ensures
        stage(generator, code.emit_all(ops)).grew_from(stage(generator, code)),
{
    lemma_no_growth(stage(generator, code));
    lemma_emitted_since(stage(generator, code), stage(generator, code), ops);
}

/// The stage that a step has reached.
pub open spec fn reached(progress: Progress) -> Stage {
    stage(progress.generator, progress.code)
}

/// A call of a function.
pub proof fn lemma_called(start: Progress, name: Seq<char>)
    requires
        start.code.wf(),
    ensures
        reached(start.call(name)).grew_from(reached(start)),
        start.call(name).code.wf(),
        start.call(name).code.block == start.code.block,
        start.call(name).generator == start.generator,
{
    lemma_no_growth(reached(start));
    reveal(CodeView::emit);
    if let Some(function) = start.generator.module.function_named(name) {
        let ops = seq![Op::Call(function)];
        assert(start.code.emit(Op::Call(function)) == start.code.emit_all(ops)) by {
            reveal(CodeView::emit_all);
        }
        lemma_emitted(start.generator, start.code, ops);
    }
}

/// Another state of the generator, with the same code.
pub proof fn lemma_generator_grew(before: GeneratorView, after: GeneratorView, code: CodeView)
    requires
        after.grew_from(before),
    ensures
        stage(after, code).grew_from(stage(before, code)),
{
    reveal(is_added_to);
}

/// Other findings of the analysis.
pub proof fn lemma_analysis_changed(
    generator: GeneratorView,
    analysis: AnalysisView,
    code: CodeView,
)
    ensures
        stage(GeneratorView { analysis, ..generator }, code).grew_from(stage(generator, code)),
{
    reveal(GeneratorView::grew_from);
    lemma_generator_grew(generator, GeneratorView { analysis, ..generator }, code);
}

/// More locals.
pub proof fn lemma_locals_added(generator: GeneratorView, types: Seq<WasmType>, code: CodeView)
    ensures
        generator.add_locals(types).grew_from(generator),
        stage(generator.add_locals(types), code).grew_from(stage(generator, code)),
{
    reveal(GeneratorView::grew_from);
    lemma_generator_grew(generator, generator.add_locals(types), code);
}

/// What is visited in a sequence of its own grows the function.
pub proof fn lemma_visited_inside(
    generator: GeneratorView,
    code: CodeView,
    results: Seq<WasmType>,
    inside: Stage,
)
    requires
        code.wf(),
        inside.grew_from(stage(generator, code.enter_block(results))),
    ensures
        stage(inside.generator, inside.code.at_block(code.block)).grew_from(
            stage(generator, code),
        ),
{
    reveal(is_added_to);
    let was = code.function.blocks;
    let entered = code.enter_block(results).function.blocks;
    let now = inside.code.function.blocks;
    let first = generator.next_local();
    let exit = generator.early_return_block;
    assert forall|b: int| 0 <= b < now.len() implies if b >= was.len() {
        all_keep_to_themselves((#[trigger] now[b]).ops, 0, first, was.len(), exit)
    } else {
        now[b] == was[b]
    } by {
        if b >= was.len() {
            assert forall|i: int| 0 <= i < now[b].ops.len() implies keeps_to_itself(
                #[trigger] now[b].ops[i],
                first,
                was.len(),
                exit,
            ) by {
                lemma_keeps_to_more(
                    now[b].ops[i],
                    first,
                    entered.len(),
                    exit,
                    first,
                    was.len(),
                    exit,
                );
            }
        } else {
            assert(entered[b] == was[b]);
        }
    }
}

/// What grew is still a sound place to write to, with what was written there.
pub proof fn lemma_grown_code(before: Stage, after: Stage)
    requires
        after.grew_from(before),
        before.code.wf(),
    ensures
        after.code.wf(),
        after.code.block == before.code.block,
        keeps_ops(before.code.function.blocks, after.code.function.blocks),
{
    reveal(is_added_to);
    reveal(keeps_ops);
    let was = before.code.function.blocks;
    let now = after.code.function.blocks;
    assert forall|b: int| 0 <= b < was.len() implies (#[trigger] now[b]).results == was[b].results
        && was[b].ops.is_prefix_of(now[b].ops) by {
        assert(was[b].ops =~= now[b].ops.subrange(0, was[b].ops.len() as int));
    }
}

} // verus!

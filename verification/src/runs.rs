//! What was added to a function, when it runs: the machine before it and the machine after.
use vstd::prelude::*;

use crate::execution::{
    called, lemma_plain_ops_run, lemma_run_ops_twice, run_op, run_ops, Outcome, Surroundings,
};
use crate::ir::{CodeView, FunctionCode, Op};
use crate::machine::Machine;
use crate::progress::Progress;
use crate::statement_laws::{stretch, written};

verus! {

/// A function that runs, what is around it, and how deep its blocks may run.
pub struct Run {
    pub function: FunctionCode,
    pub around: Surroundings,
    pub fuel: nat,
}

impl Run {
    /// How running the instructions that were added to a sequence ends.
    pub open spec fn added(self, before: CodeView, after: CodeView, machine: Machine) -> Outcome {
        run_ops(self.function, self.around, stretch(before, after), machine, self.fuel)
    }

    /// Whether code was only added to the sequence that is written to, and running what was
    /// added leads from one state of the machine to another.
    pub open spec fn leads(
        self,
        before: CodeView,
        after: CodeView,
        machine: Machine,
        then: Machine,
    ) -> bool {
        &&& before.wf()
        &&& after.wf()
        &&& after.block == before.block
        &&& written(before).is_prefix_of(written(after))
        &&& self.added(before, after, machine) == Outcome::Done(then)
    }

    /// Whether the function that runs has the sequences that were added to it.
    pub open spec fn has_added(self, before: CodeView, after: CodeView) -> bool {
        let blocks = after.function.blocks;
        &&& blocks.len() <= self.function.blocks.len()
        &&& forall|b: int|
            before.function.blocks.len() <= b < blocks.len() ==> #[trigger] self.function.blocks[b]
                == blocks[b]
    }
}

/// Adding nothing leads nowhere else.
pub proof fn lemma_leads_nothing(run: Run, code: CodeView, machine: Machine)
    requires
        code.wf(),
    ensures
        run.leads(code, code, machine, machine),
{
    assert(stretch(code, code) =~= Seq::empty());
    assert(written(code) =~= written(code).subrange(0, written(code).len() as int));
}

/// Adding to other sequences leads nowhere else.
pub proof fn lemma_leads_aside(run: Run, before: CodeView, after: CodeView, machine: Machine)
    requires
        before.wf(),
        after.wf(),
        after.block == before.block,
        written(after) == written(before),
    ensures
        run.leads(before, after, machine, machine),
{
    assert(stretch(before, after) =~= Seq::empty());
    assert(written(before) =~= written(after).subrange(0, written(before).len() as int));
}

/// Adding in two steps.
pub proof fn lemma_leads_twice(
    run: Run,
    first: CodeView,
    second: CodeView,
    third: CodeView,
    m1: Machine,
    m2: Machine,
    m3: Machine,
)
    requires
        run.leads(first, second, m1, m2),
        run.leads(second, third, m2, m3),
    ensures
        run.leads(first, third, m1, m3),
{
    let (a, b, c) = (written(first), written(second), written(third));
    assert forall|i: int| 0 <= i < a.len() implies a[i] == c[i] by {
        assert(b.subrange(0, a.len() as int)[i] == a[i]);
        assert(c.subrange(0, b.len() as int)[i] == b[i]);
    }
    assert(a =~= c.subrange(0, a.len() as int));
    assert(stretch(first, third) =~= stretch(first, second) + stretch(second, third)) by {
        assert forall|i: int| 0 <= i < b.len() implies b[i] == c[i] by {
            assert(c.subrange(0, b.len() as int)[i] == b[i]);
        }
    }
    lemma_run_ops_twice(
        run.function,
        run.around,
        stretch(first, second),
        stretch(second, third),
        m1,
        run.fuel,
    );
}

/// Adding instructions.
pub proof fn lemma_leads_emitted(
    run: Run,
    code: CodeView,
    ops: Seq<Op>,
    machine: Machine,
    then: Machine,
)
    requires
        code.wf(),
        run_ops(run.function, run.around, ops, machine, run.fuel) == Outcome::Done(then),
    ensures
        run.leads(code, code.emit_all(ops), machine, then),
{
    reveal(CodeView::emit_all);
    let after = code.emit_all(ops);
    assert(written(after) == written(code) + ops);
    assert(stretch(code, after) =~= ops);
    assert(written(code) =~= written(after).subrange(0, written(code).len() as int));
}

/// Adding instructions that only move values.
pub proof fn lemma_leads_plain(
    run: Run,
    code: CodeView,
    ops: Seq<Op>,
    machine: Machine,
    then: Machine,
)
    requires
        code.wf(),
        machine.run(ops) == Some(then),
    ensures
        run.leads(code, code.emit_all(ops), machine, then),
{
    lemma_plain_ops_run(run.function, run.around, ops, machine, run.fuel);
    lemma_leads_emitted(run, code, ops, machine, then);
}

/// Running one instruction.
pub proof fn lemma_run_one(run: Run, op: Op, machine: Machine)
    ensures
        run_ops(run.function, run.around, seq![op], machine, run.fuel) == run_op(
            run.function,
            run.around,
            op,
            machine,
            run.fuel,
        ),
{
    let ops = seq![op];
    assert(ops.drop_last() =~= Seq::empty());
    assert(run_ops(run.function, run.around, ops.drop_last(), machine, run.fuel) == Outcome::Done(
        machine,
    ));
}

/// Adding one instruction.
pub proof fn lemma_leads_one(run: Run, code: CodeView, op: Op, machine: Machine, then: Machine)
    requires
        code.wf(),
        run_op(run.function, run.around, op, machine, run.fuel) == Outcome::Done(then),
    ensures
        run.leads(code, code.emit(op), machine, then),
{
    lemma_run_one(run, op, machine);
    assert(code.emit(op) == code.emit_all(seq![op])) by {
        reveal(CodeView::emit);
        reveal(CodeView::emit_all);
    }
    lemma_leads_emitted(run, code, seq![op], machine, then);
}

/// Adding a call of a function that is there.
pub proof fn lemma_leads_call(run: Run, start: Progress, name: Seq<char>, machine: Machine)
    requires
        start.failure is None,
        start.code.wf(),
        start.generator.module.has_function(name),
        called(run.around, start.generator.module.function(name), machine) is Some,
    ensures
        start.call(name).failure is None,
        start.call(name).generator == start.generator,
        start.call(name).code.function.blocks.len() == start.code.function.blocks.len(),
        run.leads(
            start.code,
            start.call(name).code,
            machine,
            called(run.around, start.generator.module.function(name), machine)->0,
        ),
{
    let callee = start.generator.module.function(name);
    reveal(CodeView::emit);
    lemma_leads_one(
        run,
        start.code,
        Op::Call(callee),
        machine,
        called(run.around, callee, machine)->0,
    );
}

} // verus!

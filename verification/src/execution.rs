//! What a function does when it is called: its blocks and branches, and the functions that
//! it calls.
use vstd::prelude::*;

use crate::growth::keeps_to_itself;
use crate::ir::{no_ops, FunctionCode, Op};
use crate::machine::{Machine, Word};

verus! {

/// What is around a function when it runs: what calls of other functions do, and what the
/// instructions do that have no name in the model. Where there is no next state, the call
/// or the instruction traps.
pub struct Surroundings {
    pub call: spec_fn(nat, Machine) -> Option<Machine>,
    pub other: spec_fn(int, Machine) -> Option<Machine>,
}

/// How running instructions ends.
pub enum Outcome {
    /// After the last of them.
    Done(Machine),
    /// With a branch that leaves the block that runs an instruction sequence.
    Leaves(nat, Machine),
    /// With a return from the function.
    Returns(Machine),
    /// Not, or with a trap.
    Stops,
}

/// What comes of something that other code does. The locals of the function that runs are
/// its own: only its own instructions write them.
pub open spec fn with_own_locals(before: Machine, after: Option<Machine>) -> Outcome {
    match after {
        Some(after) => Outcome::Done(Machine { locals: before.locals, ..after }),
        None => Outcome::Stops,
    }
}

/// The machine as another function sees it, which does not see the locals.
pub open spec fn without_locals(machine: Machine) -> Machine {
    Machine { locals: Map::empty(), ..machine }
}

/// The machine after a call of another function, where the call does not trap.
pub open spec fn called(around: Surroundings, callee: nat, machine: Machine) -> Option<Machine> {
    match (around.call)(callee, without_locals(machine)) {
        Some(after) => Some(Machine { locals: machine.locals, ..after }),
        None => None,
    }
}

/// The machine after a branch left a block that was entered with the stack `under`, and
/// that leaves `n` words.
pub open spec fn unwound(machine: Machine, under: Seq<Word>, n: nat) -> Outcome {
    if machine.stack.len() < n {
        Outcome::Stops
    } else {
        let kept = machine.stack.skip(machine.stack.len() - n);
        Outcome::Done(Machine { stack: under + kept, ..machine })
    }
}

/// Runs the instructions of a sequence of a function from position `i` on, as long as no
/// more than `fuel` sequences run inside one another or one after the other in a loop.
pub open spec fn run_sequence(
    function: FunctionCode,
    around: Surroundings,
    sequence: nat,
    i: nat,
    machine: Machine,
    fuel: nat,
) -> Outcome
    decreases fuel, 1int, function.blocks[sequence as int].ops.len() - i,
{
    let ops = function.blocks[sequence as int].ops;
    if sequence >= function.blocks.len() {
        Outcome::Stops
    } else if i >= ops.len() {
        Outcome::Done(machine)
    } else {
        match run_op(function, around, ops[i as int], machine, fuel) {
            Outcome::Done(next) => run_sequence(function, around, sequence, i + 1, next, fuel),
            outcome => outcome,
        }
    }
}

/// Runs a sequence in a block.
pub open spec fn run_block(
    function: FunctionCode,
    around: Surroundings,
    sequence: nat,
    machine: Machine,
    fuel: nat,
) -> Outcome
    decreases fuel, 0int, 0int,
{
    if fuel == 0 {
        Outcome::Stops
    } else {
        match run_sequence(function, around, sequence, 0, machine, (fuel - 1) as nat) {
            Outcome::Leaves(left, after) if left == sequence => unwound(
                after,
                machine.stack,
                function.blocks[sequence as int].results.len(),
            ),
            outcome => outcome,
        }
    }
}

/// Runs a sequence in a loop.
pub open spec fn run_loop(
    function: FunctionCode,
    around: Surroundings,
    sequence: nat,
    machine: Machine,
    fuel: nat,
) -> Outcome
    decreases fuel, 0int, 0int,
{
    if fuel == 0 {
        Outcome::Stops
    } else {
        match run_sequence(function, around, sequence, 0, machine, (fuel - 1) as nat) {
            Outcome::Leaves(left, after) if left == sequence => run_loop(
                function,
                around,
                sequence,
                Machine { stack: machine.stack, ..after },
                (fuel - 1) as nat,
            ),
            outcome => outcome,
        }
    }
}

/// Runs an instruction.
pub open spec fn run_op(
    function: FunctionCode,
    around: Surroundings,
    op: Op,
    machine: Machine,
    fuel: nat,
) -> Outcome
    decreases fuel, 0int, 1int,
{
    match op {
        Op::Call(callee) => with_own_locals(
            machine,
            (around.call)(callee, without_locals(machine)),
        ),
        Op::Other(number) => with_own_locals(machine, (around.other)(number, machine)),
        Op::Block(sequence) => run_block(function, around, sequence, machine, fuel),
        Op::Loop(sequence) => run_loop(function, around, sequence, machine, fuel),
        Op::IfElse { consequent, alternative } => if machine.stack.len() == 0 {
            Outcome::Stops
        } else if machine.top() != Word::I32(0) {
            run_block(function, around, consequent, machine.pop(), fuel)
        } else {
            run_block(function, around, alternative, machine.pop(), fuel)
        },
        Op::Br(sequence) => Outcome::Leaves(sequence, machine),
        Op::BrIf(sequence) => if machine.stack.len() == 0 {
            Outcome::Stops
        } else if machine.top() != Word::I32(0) {
            Outcome::Leaves(sequence, machine.pop())
        } else {
            Outcome::Done(machine.pop())
        },
        Op::BrTable { blocks, default } => if machine.stack.len() == 0 {
            Outcome::Stops
        } else {
            match machine.top() {
                Word::I32(at) => Outcome::Leaves(
                    if at < blocks.len() {
                        blocks[at as int]
                    } else {
                        default
                    },
                    machine.pop(),
                ),
                _ => Outcome::Stops,
            }
        },
        Op::Return => Outcome::Returns(machine),
        _ => match machine.step(op) {
            Some(next) => Outcome::Done(next),
            None => Outcome::Stops,
        },
    }
}

/// Runs a list of instructions in a function.
pub open spec fn run_ops(
    function: FunctionCode,
    around: Surroundings,
    ops: Seq<Op>,
    machine: Machine,
    fuel: nat,
) -> Outcome
    decreases ops.len(),
{
    if ops.len() == 0 {
        Outcome::Done(machine)
    } else {
        match run_ops(function, around, ops.drop_last(), machine, fuel) {
            Outcome::Done(next) => run_op(function, around, ops.last(), next, fuel),
            outcome => outcome,
        }
    }
}

/// Running two lists of instructions.
pub proof fn lemma_run_ops_twice(
    function: FunctionCode,
    around: Surroundings,
    first: Seq<Op>,
    second: Seq<Op>,
    machine: Machine,
    fuel: nat,
)
    ensures
        run_ops(function, around, first + second, machine, fuel) == match run_ops(
            function,
            around,
            first,
            machine,
            fuel,
        ) {
            Outcome::Done(next) => run_ops(function, around, second, next, fuel),
            outcome => outcome,
        },
    decreases second.len(),
{
    if second.len() == 0 {
        assert(first + second =~= first);
    } else {
        lemma_run_ops_twice(function, around, first, second.drop_last(), machine, fuel);
        assert((first + second).drop_last() =~= first + second.drop_last());
        assert((first + second).last() == second.last());
    }
}

/// Instructions that only move values do so in a function too.
pub proof fn lemma_plain_ops_run(
    function: FunctionCode,
    around: Surroundings,
    ops: Seq<Op>,
    machine: Machine,
    fuel: nat,
)
    requires
        machine.run(ops) is Some,
    ensures
        run_ops(function, around, ops, machine, fuel) == Outcome::Done(machine.run(ops)->0),
    decreases ops.len(),
{
    if ops.len() > 0 {
        lemma_plain_ops_run(function, around, ops.drop_last(), machine, fuel);
    }
}

/// Running a sequence from a position on is running its instructions from there on.
proof fn lemma_sequence_runs_the_rest(
    function: FunctionCode,
    around: Surroundings,
    sequence: nat,
    i: nat,
    machine: Machine,
    fuel: nat,
)
    requires
        sequence < function.blocks.len(),
        i <= function.blocks[sequence as int].ops.len(),
    ensures
        run_sequence(function, around, sequence, i, machine, fuel) == run_ops(
            function,
            around,
            function.blocks[sequence as int].ops.skip(i as int),
            machine,
            fuel,
        ),
    decreases function.blocks[sequence as int].ops.len() - i,
{
    let ops = function.blocks[sequence as int].ops;
    if i < ops.len() {
        let first = seq![ops[i as int]];
        let rest = ops.skip(i as int + 1);
        assert(ops.skip(i as int) =~= first + rest);
        lemma_run_ops_twice(function, around, first, rest, machine, fuel);
        assert(first.drop_last() =~= Seq::empty());
        assert(run_ops(function, around, first.drop_last(), machine, fuel) == Outcome::Done(
            machine,
        ));
        if let Outcome::Done(next) = run_op(function, around, ops[i as int], machine, fuel) {
            lemma_sequence_runs_the_rest(function, around, sequence, i + 1, next, fuel);
        }
    }
}

/// Running a sequence is running its instructions.
pub proof fn lemma_sequence_runs_its_ops(
    function: FunctionCode,
    around: Surroundings,
    sequence: nat,
    machine: Machine,
    fuel: nat,
)
    requires
        sequence < function.blocks.len(),
    ensures
        run_sequence(function, around, sequence, 0, machine, fuel) == run_ops(
            function,
            around,
            function.blocks[sequence as int].ops,
            machine,
            fuel,
        ),
{
    let ops = function.blocks[sequence as int].ops;
    lemma_sequence_runs_the_rest(function, around, sequence, 0, machine, fuel);
    assert(ops.skip(0) =~= ops);
}

/// The machine when a function returns that is called with its parameters in its locals:
/// after the last instruction of its body, with a branch out of the body, or with a return
/// instruction. There is none where the function does not return.
pub open spec fn returned(
    function: FunctionCode,
    around: Surroundings,
    machine: Machine,
    fuel: nat,
) -> Option<Machine> {
    match run_sequence(function, around, 0, 0, machine, fuel) {
        Outcome::Done(after) => Some(after),
        Outcome::Leaves(left, after) if left == 0 => Some(after),
        Outcome::Returns(after) => Some(after),
        _ => None,
    }
}

/// Whether a function, whenever it returns, has left a global as it found it: whatever the
/// functions do that it calls, and whichever way it returns.
pub open spec fn restores(function: FunctionCode, global: nat) -> bool {
    forall|around: Surroundings, machine: Machine, fuel: nat|
        machine.globals.contains_key(global) ==> match #[trigger] returned(
            function,
            around,
            machine,
            fuel,
        ) {
            Some(after) => after.globals.contains_key(global) && after.globals[global]
                == machine.globals[global],
            None => true,
        }
}

/// Whether a local has the same value in two states.
pub open spec fn same_local(before: Machine, after: Machine, local: nat) -> bool {
    &&& before.locals.contains_key(local) == after.locals.contains_key(local)
    &&& before.locals[local] == after.locals[local]
}

/// Whether an outcome leaves a local alone, and leaves no block that is further out than the
/// one that runs the second sequence.
pub open spec fn stays_inside(outcome: Outcome, before: Machine, local: nat) -> bool {
    match outcome {
        Outcome::Done(after) => same_local(before, after, local),
        Outcome::Leaves(left, after) => 1 <= left && same_local(before, after, local),
        Outcome::Returns(after) => false,
        Outcome::Stops => true,
    }
}

/// Whether all sequences of a function but the first leave the locals up to `local` alone,
/// and do not leave the function but through the block of the second sequence.
pub open spec fn body_keeps_to_itself(function: FunctionCode, local: nat) -> bool {
    forall|b: int, i: int|
        1 <= b < function.blocks.len() && 0 <= i < function.blocks[b].ops.len()
            ==> keeps_to_itself(
            #[trigger] function.blocks[b].ops[i],
            local + 1,
            2,
            Some(1nat),
        )
}

/// Such sequences leave the local alone when they run.
proof fn lemma_sequence_stays_inside(
    function: FunctionCode,
    around: Surroundings,
    sequence: nat,
    i: nat,
    machine: Machine,
    fuel: nat,
    local: nat,
)
    requires
        body_keeps_to_itself(function, local),
        sequence >= 1,
    ensures
        stays_inside(
            run_sequence(function, around, sequence, i, machine, fuel),
            machine,
            local,
        ),
    decreases fuel, 1int, function.blocks[sequence as int].ops.len() - i,
{
    let ops = function.blocks[sequence as int].ops;
    if sequence < function.blocks.len() && i < ops.len() {
        let op = function.blocks[sequence as int].ops[i as int];
        lemma_op_stays_inside(function, around, op, machine, fuel, local);
        if let Outcome::Done(next) = run_op(function, around, op, machine, fuel) {
            lemma_sequence_stays_inside(function, around, sequence, i + 1, next, fuel, local);
        }
    }
}

proof fn lemma_block_stays_inside(
    function: FunctionCode,
    around: Surroundings,
    sequence: nat,
    machine: Machine,
    fuel: nat,
    local: nat,
)
    requires
        body_keeps_to_itself(function, local),
        sequence >= 1,
    ensures
        stays_inside(run_block(function, around, sequence, machine, fuel), machine, local),
    decreases fuel, 0int, 0int,
{
    if fuel > 0 {
        lemma_sequence_stays_inside(
            function,
            around,
            sequence,
            0,
            machine,
            (fuel - 1) as nat,
            local,
        );
    }
}

proof fn lemma_loop_stays_inside(
    function: FunctionCode,
    around: Surroundings,
    sequence: nat,
    machine: Machine,
    fuel: nat,
    local: nat,
)
    requires
        body_keeps_to_itself(function, local),
        sequence >= 1,
    ensures
        stays_inside(run_loop(function, around, sequence, machine, fuel), machine, local),
    decreases fuel, 0int, 0int,
{
    if fuel > 0 {
        let rest = (fuel - 1) as nat;
        lemma_sequence_stays_inside(function, around, sequence, 0, machine, rest, local);
        if let Outcome::Leaves(left, after) = run_sequence(
            function,
            around,
            sequence,
            0,
            machine,
            rest,
        ) {
            if left == sequence {
                let again = Machine { stack: machine.stack, ..after };
                lemma_loop_stays_inside(function, around, sequence, again, rest, local);
            }
        }
    }
}

proof fn lemma_op_stays_inside(
    function: FunctionCode,
    around: Surroundings,
    op: Op,
    machine: Machine,
    fuel: nat,
    local: nat,
)
    requires
        body_keeps_to_itself(function, local),
        keeps_to_itself(op, local + 1, 2, Some(1nat)),
    ensures
        stays_inside(run_op(function, around, op, machine, fuel), machine, local),
    decreases fuel, 0int, 1int,
{
    match op {
        Op::Block(sequence) => {
            lemma_block_stays_inside(function, around, sequence, machine, fuel, local);
        },
        Op::Loop(sequence) => {
            lemma_loop_stays_inside(function, around, sequence, machine, fuel, local);
        },
        Op::IfElse { consequent, alternative } => {
            let popped = machine.pop();
            lemma_block_stays_inside(function, around, consequent, popped, fuel, local);
            lemma_block_stays_inside(function, around, alternative, popped, fuel, local);
        },
        _ => {},
    }
}

/// A function leaves a global as it found it, on every way out, where its body is this: the
/// global is noted in a local, a block runs that leaves the local alone and that nothing
/// leaves but into the body, and the global is set to what was noted.
pub proof fn law_global_is_restored(function: FunctionCode, global: nat, local: nat)
    requires
        function.blocks.len() >= 2,
        function.blocks[0].ops == no_ops().push(Op::GlobalGet(global)).push(
            Op::LocalSet(local),
        ).push(Op::Block(1)).push(Op::LocalGet(local)).push(Op::GlobalSet(global)),
        body_keeps_to_itself(function, local),
    ensures
        restores(function, global),
{
    assert forall|around: Surroundings, machine: Machine, fuel: nat|
        machine.globals.contains_key(global) implies match #[trigger] returned(
        function,
        around,
        machine,
        fuel,
    ) {
        Some(after) => after.globals.contains_key(global) && after.globals[global]
            == machine.globals[global],
        None => true,
    } by {
        reveal_with_fuel(run_sequence, 6);
        let ops = function.blocks[0].ops;
        assert(ops.len() == 5);
        assert(ops[0] == Op::GlobalGet(global));
        assert(ops[1] == Op::LocalSet(local));
        assert(ops[2] == Op::Block(1));
        assert(ops[3] == Op::LocalGet(local));
        assert(ops[4] == Op::GlobalSet(global));
        let m1 = machine.step(ops[0])->0;
        let m2 = m1.step(ops[1])->0;
        assert(m2.locals[local] == machine.globals[global]);
        assert(run_op(function, around, ops[0], machine, fuel) == Outcome::Done(m1));
        assert(run_op(function, around, ops[1], m1, fuel) == Outcome::Done(m2));
        lemma_block_stays_inside(function, around, 1, m2, fuel, local);
        let ran = run_op(function, around, ops[2], m2, fuel);
        assert(ran == run_block(function, around, 1, m2, fuel));
        if let Outcome::Done(m3) = ran {
            let m4 = m3.step(ops[3])->0;
            let m5 = m4.step(ops[4])->0;
            assert(run_op(function, around, ops[3], m3, fuel) == Outcome::Done(m4));
            assert(run_op(function, around, ops[4], m4, fuel) == Outcome::Done(m5));
            assert(m5.globals[global] == machine.globals[global]);
        }
    }
}

/// What a function with such a body returns that is called with nothing of its own on the
/// stack: where the instructions of the block run to their end, all that they leave; and
/// where they leave the block, as many of the topmost words as the block has results.
pub proof fn law_block_is_returned(
    function: FunctionCode,
    global: nat,
    local: nat,
    around: Surroundings,
    machine: Machine,
    fuel: nat,
)
    requires
        function.blocks.len() >= 2,
        function.blocks[0].ops == no_ops().push(Op::GlobalGet(global)).push(
            Op::LocalSet(local),
        ).push(Op::Block(1)).push(Op::LocalGet(local)).push(Op::GlobalSet(global)),
        body_keeps_to_itself(function, local),
        machine.globals.contains_key(global),
        machine.stack == Seq::<Word>::empty(),
    ensures
        ({
            let noted = machine.globals[global];
            let entered = Machine { locals: machine.locals.insert(local, noted), ..machine };
            let n = function.blocks[1].results.len();
            let ran = run_ops(function, around, function.blocks[1].ops, entered, fuel);
            let after = returned(function, around, machine, fuel + 1);
            match ran {
                Outcome::Done(left) => after == Some(
                    Machine { globals: left.globals.insert(global, noted), ..left },
                ),
                Outcome::Leaves(block, left) => block == 1 && left.stack.len() >= n ==> after
                    == Some(
                    Machine {
                        stack: left.stack.skip(left.stack.len() - n),
                        globals: left.globals.insert(global, noted),
                        ..left
                    },
                ),
                _ => after is None,
            }
        }),
{
    reveal_with_fuel(run_sequence, 6);
    let more = fuel + 1;
    let ops = function.blocks[0].ops;
    assert(ops.len() == 5);
    assert(ops[0] == Op::GlobalGet(global));
    assert(ops[1] == Op::LocalSet(local));
    assert(ops[2] == Op::Block(1));
    assert(ops[3] == Op::LocalGet(local));
    assert(ops[4] == Op::GlobalSet(global));
    let noted = machine.globals[global];
    let entered = Machine { locals: machine.locals.insert(local, noted), ..machine };
    let m1 = machine.step(ops[0])->0;
    let m2 = m1.step(ops[1])->0;
    assert(m2.stack =~= machine.stack);
    assert(m2 == entered);
    assert(run_op(function, around, ops[0], machine, more) == Outcome::Done(m1));
    assert(run_op(function, around, ops[1], m1, more) == Outcome::Done(m2));
    lemma_sequence_stays_inside(function, around, 1, 0, m2, fuel, local);
    lemma_sequence_runs_its_ops(function, around, 1, m2, fuel);
    lemma_block_stays_inside(function, around, 1, m2, more, local);
    let ran = run_op(function, around, ops[2], m2, more);
    assert(ran == run_block(function, around, 1, m2, more));
    let inner = run_sequence(function, around, 1, 0, m2, fuel);
    if let Outcome::Leaves(block, left) = inner {
        let n = function.blocks[1].results.len();
        if left.stack.len() >= n {
            let kept = left.stack.skip(left.stack.len() - n);
            assert(machine.stack + kept =~= kept);
        }
    }
    if let Outcome::Done(m3) = ran {
        let m4 = m3.step(ops[3])->0;
        let m5 = m4.step(ops[4])->0;
        assert(run_op(function, around, ops[3], m3, more) == Outcome::Done(m4));
        assert(run_op(function, around, ops[4], m4, more) == Outcome::Done(m5));
        assert(m5.stack =~= m3.stack);
    }
}

} // verus!

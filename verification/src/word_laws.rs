//! What lists leave on the stack when what is written for them runs: words with their
//! arguments, and calls with theirs.
use std::rc::Rc;
use vstd::prelude::*;

use crate::analysis::{AnalysisView, SymbolicExpression, SymbolicExpressionType};
use crate::calls::user_call_effect;
use crate::error::Failure;
use crate::generator::GeneratorView;
use crate::literals::literal_effect;
use crate::machine::{Machine, Word};
use crate::progress::Progress;
use crate::runs::{lemma_leads_nothing, lemma_leads_twice, Run};
use crate::statement_laws::written;
use crate::traversal::{
    all_typed, args_effect, elements, expr_effect, list_effect, pairs_effect, set_types_effect,
    types_of, user_defined_effect, word_types_failure,
};
use crate::types::{pointee, FunctionArg, FunctionType, TypeSignature};
use crate::variables::atom_effect;
use crate::words::Words;

verus! {

/// What is known of the generator and of the machine once a number of arguments has been
/// visited. It can be anything that visiting the arguments needs and keeps: which names
/// there are, what memory holds, or what the host was told by then.
pub type Condition = spec_fn(nat, Progress, Machine) -> bool;

/// Whether a state is one in which the `n` first arguments have been visited.
pub open spec fn is_after(known: Condition, n: nat, at: Progress, machine: Machine) -> bool {
    &&& at.failure is None
    &&& at.code.wf()
    &&& known(n, at, machine)
}

/// Whether a step succeeds, and what it writes leads from the machine to one with the given
/// stack, in a state in which the `n` first arguments have been visited.
pub open spec fn leaves(
    run: Run,
    known: Condition,
    n: nat,
    before: Progress,
    after: Progress,
    machine: Machine,
    stack: Seq<Word>,
) -> bool {
    &&& after.failure is None
    &&& exists|then: Machine|
        {
            &&& #[trigger] run.leads(before.code, after.code, machine, then)
            &&& then.stack == stack
            &&& known(n, after, then)
        }
}

/// Whether the argument at position `i` leaves its own value when it is visited after the
/// arguments before it: its value is put on the stack, and what is under it stays.
pub open spec fn argument_leaves<W: Words>(
    run: Run,
    words: &W,
    known: Condition,
    i: nat,
    argument: SymbolicExpression,
    value: Seq<Word>,
) -> bool {
    forall|at: Progress, machine: Machine| #[trigger]
        is_after(known, i, at, machine) ==> leaves(
            run,
            known,
            i + 1,
            at,
            expr_effect(words, at, argument),
            machine,
            machine.stack + value,
        )
}

/// Whether each argument leaves its own value when it is visited after those before it.
pub open spec fn arguments_leave<W: Words>(
    run: Run,
    words: &W,
    known: Condition,
    args: Seq<SymbolicExpression>,
    values: Seq<Seq<Word>>,
) -> bool {
    &&& values.len() == args.len()
    &&& forall|i: int|
        0 <= i < args.len() ==> argument_leaves(
            run,
            words,
            known,
            i as nat,
            #[trigger] args[i],
            values[i],
        )
}

/// Whether an expression is a list that starts with a name and goes on with arguments.
pub open spec fn is_list_of(
    expr: SymbolicExpression,
    name: Seq<char>,
    args: Seq<SymbolicExpression>,
) -> bool {
    &&& expr.expr is List
    &&& elements(expr).len() == args.len() + 1
    &&& elements(expr)[0].expr is Atom
    &&& elements(expr)[0].expr->Atom_0@ == name
    &&& forall|i: int| 0 <= i < args.len() ==> #[trigger] args[i] == elements(expr)[i + 1]
}

/// Whether expressions have the given types.
pub open spec fn have_types(
    analysis: AnalysisView,
    args: Seq<SymbolicExpression>,
    types: Seq<Rc<TypeSignature>>,
) -> bool {
    &&& types.len() == args.len()
    &&& forall|i: int|
        0 <= i < args.len() ==> analysis.type_of(#[trigger] args[i]) == Some(types[i])
}

/// What a function of two values makes of a list of values, from the first on: of the first
/// two, then of that and the third, and so on up to position `i`.
pub open spec fn folded(
    f: spec_fn(Seq<Word>, Seq<Word>) -> Seq<Word>,
    values: Seq<Seq<Word>>,
    i: nat,
) -> Seq<Word>
    decreases i,
{
    if i == 0 {
        values[0]
    } else {
        f(folded(f, values, (i - 1) as nat), values[i as int])
    }
}

/// Expressions that have types are all typed.
proof fn lemma_all_typed(
    analysis: AnalysisView,
    args: Seq<SymbolicExpression>,
    types: Seq<Rc<TypeSignature>>,
    i: nat,
)
    requires
        have_types(analysis, args, types),
    ensures
        all_typed(analysis, args, i),
    decreases args.len() - i,
{
    if i < args.len() {
        assert(analysis.type_of(args[i as int]) == Some(types[i as int]));
        lemma_all_typed(analysis, args, types, i + 1);
    }
}

/// The parts of a list.
proof fn lemma_list(
    analysis: AnalysisView,
    expr: SymbolicExpression,
    name: Seq<char>,
    args: Seq<SymbolicExpression>,
    types: Seq<Rc<TypeSignature>>,
)
    requires
        is_list_of(expr, name, args),
    ensures
        elements(expr).subrange(1, elements(expr).len() as int) == args,
        have_types(analysis, args, types) ==> types_of(analysis, args) == types,
        have_types(analysis, args, types) && analysis.type_of(expr) is Some
            ==> word_types_failure(analysis, expr, args) is None,
{
    assert(elements(expr).subrange(1, elements(expr).len() as int) =~= args);
    if have_types(analysis, args, types) {
        lemma_all_typed(analysis, args, types, 0);
        assert forall|i: int| 0 <= i < args.len() implies types_of(analysis, args)[i]
            == types[i] by {
            assert(analysis.type_of(args[i]) == Some(types[i]));
        }
        assert(types_of(analysis, args) =~= types);
    }
}

/// Visiting the arguments from position `i` on.
proof fn lemma_arguments<W: Words>(
    run: Run,
    words: &W,
    known: Condition,
    args: Seq<SymbolicExpression>,
    values: Seq<Seq<Word>>,
    at: Progress,
    i: nat,
    machine: Machine,
    under: Seq<Word>,
)
    requires
        arguments_leave(run, words, known, args, values),
        i <= args.len(),
        is_after(known, i, at, machine),
        machine.stack == under + values.take(i as int).flatten(),
    ensures
        leaves(
            run,
            known,
            args.len(),
            at,
            args_effect(words, at, args, i),
            machine,
            under + values.flatten(),
        ),
    decreases args.len() - i,
{
    let after = args_effect(words, at, args, i);
    if i == args.len() {
        assert(values.take(i as int) =~= values);
        lemma_leads_nothing(run, at.code, machine);
        assert(run.leads(at.code, after.code, machine, machine));
    } else {
        let next = expr_effect(words, at, args[i as int]);
        assert(argument_leaves(run, words, known, i, args[i as int], values[i as int]));
        let then = choose|then: Machine|
            {
                &&& #[trigger] run.leads(at.code, next.code, machine, then)
                &&& then.stack == machine.stack + values[i as int]
                &&& known(i + 1, next, then)
            };
        let before = values.take(i as int);
        assert(values.take(i as int + 1) =~= before.push(values[i as int]));
        before.lemma_flatten_push(values[i as int]);
        assert(then.stack =~= under + values.take(i as int + 1).flatten());
        assert(is_after(known, i + 1, next, then));
        lemma_arguments(run, words, known, args, values, next, i + 1, then, under);
        let last = choose|last: Machine|
            {
                &&& #[trigger] run.leads(next.code, after.code, then, last)
                &&& last.stack == under + values.flatten()
                &&& known(args.len(), after, last)
            };
        lemma_leads_twice(run, at.code, next.code, after.code, machine, then, last);
        assert(run.leads(at.code, after.code, machine, last));
    }
}

/// Arguments that are visited one after the other leave their values in that order, the
/// first of them lowest on the stack.
pub proof fn law_arguments_are_left_in_order<W: Words>(
    run: Run,
    words: &W,
    known: Condition,
    start: Progress,
    args: Seq<SymbolicExpression>,
    values: Seq<Seq<Word>>,
    machine: Machine,
)
    requires
        is_after(known, 0, start, machine),
        arguments_leave(run, words, known, args, values),
    ensures
        leaves(
            run,
            known,
            args.len(),
            start,
            args_effect(words, start, args, 0),
            machine,
            machine.stack + values.flatten(),
        ),
{
    assert(values.take(0) =~= Seq::empty());
    assert(machine.stack + values.take(0).flatten() =~= machine.stack);
    lemma_arguments(run, words, known, args, values, start, 0, machine, machine.stack);
}

/// A name, a list and a literal are visited as what they are.
pub proof fn law_expression_is_what_it_is<W: Words>(
    words: &W,
    start: Progress,
    expr: SymbolicExpression,
)
    ensures
        ({
            let after = expr_effect(words, start, expr);
            match expr.expr {
                SymbolicExpressionType::Atom(name) => after == atom_effect(start, name@, expr),
                SymbolicExpressionType::List(_) => after == list_effect(words, start, expr),
                SymbolicExpressionType::LiteralValue(value) => after == literal_effect(
                    start,
                    value,
                ),
                _ => after == start,
            }
        }),
{
}

/// A word whose arguments are on the stack when it is visited works on the values of all of
/// its arguments, the first of them lowest on the stack, and on nothing else: where each
/// argument leaves its own value, and the word makes `result` of these values, the list
/// leaves `result`. The arguments are visited from the first to the last, and the word gets
/// the types of its arguments and its own.
pub proof fn law_simple_word_works_on_its_arguments<W: Words>(
    run: Run,
    words: &W,
    known: Condition,
    start: Progress,
    expr: SymbolicExpression,
    name: Seq<char>,
    args: Seq<SymbolicExpression>,
    types: Seq<Rc<TypeSignature>>,
    values: Seq<Seq<Word>>,
    result: Seq<Word>,
    machine: Machine,
)
    requires
        is_list_of(expr, name, args),
        !words.is_complex(name),
        words.is_simple(name),
        have_types(start.generator.analysis, args, types),
        start.generator.analysis.type_of(expr) is Some,
        is_after(known, 0, start, machine),
        arguments_leave(run, words, known, args, values),
        forall|at: Progress, before: Machine| #[trigger]
            is_after(known, args.len(), at, before) && before.stack == machine.stack
                + values.flatten() ==> leaves(
                run,
                known,
                args.len() + 1,
                at,
                words.simple_effect(
                    name,
                    at,
                    types,
                    *start.generator.analysis.type_of(expr)->0,
                ),
                before,
                machine.stack + result,
            ),
    ensures
        leaves(
            run,
            known,
            args.len() + 1,
            start,
            list_effect(words, start, expr),
            machine,
            machine.stack + result,
        ),
{
    lemma_list(start.generator.analysis, expr, name, args, types);
    let after = list_effect(words, start, expr);
    let pushed = args_effect(words, start, args, 0);
    law_arguments_are_left_in_order(run, words, known, start, args, values, machine);
    let before = choose|before: Machine|
        {
            &&& #[trigger] run.leads(start.code, pushed.code, machine, before)
            &&& before.stack == machine.stack + values.flatten()
            &&& known(args.len(), pushed, before)
        };
    assert(is_after(known, args.len(), pushed, before));
    let then = choose|then: Machine|
        {
            &&& #[trigger] run.leads(pushed.code, after.code, before, then)
            &&& then.stack == machine.stack + result
            &&& known(args.len() + 1, after, then)
        };
    lemma_leads_twice(run, start.code, pushed.code, after.code, machine, before, then);
    assert(run.leads(start.code, after.code, machine, then));
}

/// Whether a word, visited for the arguments at positions `i - 1` and `i` with their types,
/// makes of what the arguments before position `i` came to and of the value at position `i`,
/// which are on top of the stack, what `f` makes of them.
pub open spec fn word_joins<W: Words>(
    run: Run,
    words: &W,
    known: Condition,
    name: Seq<char>,
    types: Seq<Rc<TypeSignature>>,
    return_type: TypeSignature,
    f: spec_fn(Seq<Word>, Seq<Word>) -> Seq<Word>,
    values: Seq<Seq<Word>>,
    i: nat,
    under: Seq<Word>,
) -> bool {
    forall|at: Progress, machine: Machine| #[trigger]
        is_after(known, i + 1, at, machine) && machine.stack == under + folded(
            f,
            values,
            (i - 1) as nat,
        ) + values[i as int] ==> leaves(
            run,
            known,
            i + 1,
            at,
            words.variadic_effect(name, at, seq![types[i - 1], types[i as int]], return_type),
            machine,
            under + f(folded(f, values, (i - 1) as nat), values[i as int]),
        )
}

/// Visiting the pairs of neighbouring arguments from position `i` on.
proof fn lemma_pairs<W: Words>(
    run: Run,
    words: &W,
    known: Condition,
    name: Seq<char>,
    args: Seq<SymbolicExpression>,
    types: Seq<Rc<TypeSignature>>,
    return_type: TypeSignature,
    f: spec_fn(Seq<Word>, Seq<Word>) -> Seq<Word>,
    values: Seq<Seq<Word>>,
    at: Progress,
    i: nat,
    machine: Machine,
    under: Seq<Word>,
)
    requires
        arguments_leave(run, words, known, args, values),
        types.len() == args.len(),
        1 <= i <= args.len(),
        forall|j: int|
            1 <= j < args.len() ==> #[trigger] word_joins(
                run,
                words,
                known,
                name,
                types,
                return_type,
                f,
                values,
                j as nat,
                under,
            ),
        is_after(known, i, at, machine),
        machine.stack == under + folded(f, values, (i - 1) as nat),
    ensures
        leaves(
            run,
            known,
            args.len(),
            at,
            pairs_effect(words, name, at, args, types, return_type, i),
            machine,
            under + folded(f, values, (args.len() - 1) as nat),
        ),
    decreases args.len() - i,
{
    let after = pairs_effect(words, name, at, args, types, return_type, i);
    let held = folded(f, values, (i - 1) as nat);
    if i == args.len() {
        lemma_leads_nothing(run, at.code, machine);
        assert(run.leads(at.code, after.code, machine, machine));
    } else {
        let value = values[i as int];
        let pushed = expr_effect(words, at, args[i as int]);
        assert(argument_leaves(run, words, known, i, args[i as int], value));
        let m1 = choose|m1: Machine|
            {
                &&& #[trigger] run.leads(at.code, pushed.code, machine, m1)
                &&& m1.stack == machine.stack + value
                &&& known(i + 1, pushed, m1)
            };
        assert(is_after(known, i + 1, pushed, m1));
        assert(types.subrange(i - 1, (i + 1) as int) =~= seq![types[i - 1], types[i as int]]);
        let pair = seq![types[i - 1], types[i as int]];
        let next = words.variadic_effect(name, pushed, pair, return_type);
        assert(word_joins(
            run,
            words,
            known,
            name,
            types,
            return_type,
            f,
            values,
            i as int as nat,
            under,
        ));
        let joined = under + f(held, value);
        let m2 = choose|m2: Machine|
            {
                &&& #[trigger] run.leads(pushed.code, next.code, m1, m2)
                &&& m2.stack == joined
                &&& known(i + 1, next, m2)
            };
        lemma_leads_twice(run, at.code, pushed.code, next.code, machine, m1, m2);
        assert(folded(f, values, i) == f(held, value));
        assert(is_after(known, i + 1, next, m2));
        lemma_pairs(
            run,
            words,
            known,
            name,
            args,
            types,
            return_type,
            f,
            values,
            next,
            i + 1,
            m2,
            under,
        );
        let m3 = choose|m3: Machine|
            {
                &&& #[trigger] run.leads(next.code, after.code, m2, m3)
                &&& m3.stack == under + folded(f, values, (args.len() - 1) as nat)
                &&& known(args.len(), after, m3)
            };
        lemma_leads_twice(run, at.code, next.code, after.code, machine, m2, m3);
        assert(run.leads(at.code, after.code, machine, m3));
    }
}

/// A variadic word joins its arguments from the left: where each argument leaves its own
/// value, and the word makes `f(x, y)` of two values `x` and `y` on top of the stack, the
/// list leaves `f(..f(f(a0, a1), a2).., an)`. The arguments are visited from the first to
/// the last, each but the first right before the word is visited for it, with its type and
/// that of the argument before it; the code of the first argument comes before all other
/// code.
pub proof fn law_variadic_word_joins_from_the_left<W: Words>(
    run: Run,
    words: &W,
    known: Condition,
    start: Progress,
    expr: SymbolicExpression,
    name: Seq<char>,
    args: Seq<SymbolicExpression>,
    types: Seq<Rc<TypeSignature>>,
    f: spec_fn(Seq<Word>, Seq<Word>) -> Seq<Word>,
    values: Seq<Seq<Word>>,
    machine: Machine,
)
    requires
        is_list_of(expr, name, args),
        !words.is_complex(name),
        !words.is_simple(name),
        words.is_variadic(name),
        args.len() >= 2,
        have_types(start.generator.analysis, args, types),
        start.generator.analysis.type_of(expr) is Some,
        is_after(known, 0, start, machine),
        arguments_leave(run, words, known, args, values),
        forall|j: int|
            1 <= j < args.len() ==> #[trigger] word_joins(
                run,
                words,
                known,
                name,
                types,
                *start.generator.analysis.type_of(expr)->0,
                f,
                values,
                j as nat,
                machine.stack,
            ),
    ensures
        leaves(
            run,
            known,
            args.len(),
            start,
            list_effect(words, start, expr),
            machine,
            machine.stack + folded(f, values, (args.len() - 1) as nat),
        ),
        written(expr_effect(words, start, args[0]).code).is_prefix_of(
            written(list_effect(words, start, expr).code),
        ),
{
    lemma_list(start.generator.analysis, expr, name, args, types);
    let return_type = pointee(start.generator.analysis.type_of(expr)->0);
    let after = list_effect(words, start, expr);
    let pushed = expr_effect(words, start, args[0]);
    assert(argument_leaves(run, words, known, 0, args[0], values[0]));
    let m1 = choose|m1: Machine|
        {
            &&& #[trigger] run.leads(start.code, pushed.code, machine, m1)
            &&& m1.stack == machine.stack + values[0]
            &&& known(1, pushed, m1)
        };
    assert(is_after(known, 1, pushed, m1));
    assert(folded(f, values, 0) == values[0]);
    lemma_pairs(
        run,
        words,
        known,
        name,
        args,
        types,
        return_type,
        f,
        values,
        pushed,
        1,
        m1,
        machine.stack,
    );
    let m2 = choose|m2: Machine|
        {
            &&& #[trigger] run.leads(pushed.code, after.code, m1, m2)
            &&& m2.stack == machine.stack + folded(f, values, (args.len() - 1) as nat)
            &&& known(args.len(), after, m2)
        };
    lemma_leads_twice(run, start.code, pushed.code, after.code, machine, m1, m2);
    assert(run.leads(start.code, after.code, machine, m2));
}

/// A variadic word with one argument is visited once, for that argument and its type, and
/// the list leaves what the word makes of its value.
pub proof fn law_variadic_word_works_on_one_argument<W: Words>(
    run: Run,
    words: &W,
    known: Condition,
    start: Progress,
    expr: SymbolicExpression,
    name: Seq<char>,
    argument: SymbolicExpression,
    ty: Rc<TypeSignature>,
    value: Seq<Word>,
    result: Seq<Word>,
    machine: Machine,
)
    requires
        is_list_of(expr, name, seq![argument]),
        !words.is_complex(name),
        !words.is_simple(name),
        words.is_variadic(name),
        start.generator.analysis.type_of(argument) == Some(ty),
        start.generator.analysis.type_of(expr) is Some,
        is_after(known, 0, start, machine),
        argument_leaves(run, words, known, 0, argument, value),
        forall|at: Progress, before: Machine| #[trigger]
            is_after(known, 1, at, before) && before.stack == machine.stack + value ==> leaves(
                run,
                known,
                2,
                at,
                words.variadic_effect(
                    name,
                    at,
                    seq![ty],
                    *start.generator.analysis.type_of(expr)->0,
                ),
                before,
                machine.stack + result,
            ),
    ensures
        leaves(
            run,
            known,
            2,
            start,
            list_effect(words, start, expr),
            machine,
            machine.stack + result,
        ),
{
    let args = seq![argument];
    assert(have_types(start.generator.analysis, args, seq![ty]));
    lemma_list(start.generator.analysis, expr, name, args, seq![ty]);
    let after = list_effect(words, start, expr);
    let pushed = expr_effect(words, start, args[0]);
    let m1 = choose|m1: Machine|
        {
            &&& #[trigger] run.leads(start.code, pushed.code, machine, m1)
            &&& m1.stack == machine.stack + value
            &&& known(1, pushed, m1)
        };
    assert(is_after(known, 0, start, machine));
    assert(is_after(known, 1, pushed, m1));
    let m2 = choose|m2: Machine|
        {
            &&& #[trigger] run.leads(pushed.code, after.code, m1, m2)
            &&& m2.stack == machine.stack + result
            &&& known(2, after, m2)
        };
    lemma_leads_twice(run, start.code, pushed.code, after.code, machine, m1, m2);
    assert(run.leads(start.code, after.code, machine, m2));
}

/// A word that visits its arguments itself is left to do so, whatever other kinds of words
/// have its name: it gets the whole list and its arguments.
pub proof fn law_complex_word_visits_its_arguments<W: Words>(
    words: &W,
    start: Progress,
    expr: SymbolicExpression,
    name: Seq<char>,
    args: Seq<SymbolicExpression>,
)
    requires
        is_list_of(expr, name, args),
        words.is_complex(name),
    ensures
        list_effect(words, start, expr) == words.complex_effect(name, start, expr, args),
{
    lemma_list(start.generator.analysis, expr, name, args, Seq::empty());
}

/// A list that is empty or does not start with a name cannot be visited. Neither can a word
/// that does not visit its arguments itself where one of its arguments has no type, or where
/// it has none itself, nor a variadic word without arguments.
pub proof fn law_malformed_list_fails<W: Words>(
    words: &W,
    start: Progress,
    expr: SymbolicExpression,
)
    requires
        expr.expr is List,
        start.failure is None,
    ensures
        ({
            let after = list_effect(words, start, expr);
            let list = elements(expr);
            let analysis = start.generator.analysis;
            let name = list[0].expr->Atom_0@;
            let is_named = list.len() > 0 && list[0].expr is Atom;
            let is_word = is_named && !words.is_complex(name) && (words.is_simple(name)
                || words.is_variadic(name));
            let has_untyped = exists|i: int|
                1 <= i < list.len() && analysis.type_of(#[trigger] list[i]) is None;
            &&& !is_named ==> after == start.fail(Failure::InternalError("Invalid list"@))
            &&& is_word && has_untyped ==> after == start.fail(
                Failure::TypeError("expected valid argument type"@),
            )
            &&& is_word && !has_untyped && analysis.type_of(expr) is None ==> after == start.fail(
                Failure::TypeError("Simple words must be typed"@),
            )
            &&& is_word && analysis.type_of(expr) is Some && !words.is_simple(name) && list.len()
                == 1 ==> after == start.fail(
                Failure::InternalError("Variadic called without arguments"@),
            )
        }),
{
    let list = elements(expr);
    let analysis = start.generator.analysis;
    if list.len() > 0 && list[0].expr is Atom {
        let args = list.subrange(1, list.len() as int);
        if exists|i: int| 1 <= i < list.len() && analysis.type_of(#[trigger] list[i]) is None {
            let i = choose|i: int|
                1 <= i < list.len() && analysis.type_of(#[trigger] list[i]) is None;
            assert(args[i - 1] == list[i]);
            lemma_not_all_typed(analysis, args, 0, (i - 1) as nat);
        } else {
            let types = types_of(analysis, args);
            assert(have_types(analysis, args, types)) by {
                assert forall|i: int| 0 <= i < args.len() implies analysis.type_of(
                    #[trigger] args[i],
                ) == Some(types[i]) by {
                    assert(args[i] == list[i + 1]);
                }
            }
            lemma_all_typed(analysis, args, types, 0);
        }
    }
}

/// Where an expression has no type, not all are typed.
proof fn lemma_not_all_typed(
    analysis: AnalysisView,
    args: Seq<SymbolicExpression>,
    i: nat,
    j: nat,
)
    requires
        i <= j < args.len(),
        analysis.type_of(args[j as int]) is None,
    ensures
        !all_typed(analysis, args, i),
    decreases j - i,
{
    if i < j {
        lemma_not_all_typed(analysis, args, i + 1, j);
    }
}

/// Whether a state comes from another one by giving arguments the types of parameters:
/// nothing but types is different, each argument that there is a parameter for has the type
/// of the parameter, and expressions that are none of these arguments keep their types.
pub open spec fn is_typed_by(
    before: Progress,
    after: Progress,
    args: Seq<SymbolicExpression>,
    params: Seq<FunctionArg>,
) -> bool {
    let analysis = after.generator.analysis;
    let types = before.generator.analysis;
    &&& after.failure == before.failure
    &&& after.code == before.code
    &&& after.generator == (GeneratorView { analysis, ..before.generator })
    &&& analysis == (AnalysisView { types: analysis.types, ..types })
    &&& forall|i: int|
        0 <= i < args.len() && i < params.len() ==> analysis.type_of(#[trigger] args[i]) == Some(
            params[i].signature,
        )
    &&& forall|other: SymbolicExpression|
        (forall|i: int|
            0 <= i < args.len() && i < params.len() ==> (#[trigger] args[i]).id != other.id)
            ==> #[trigger] analysis.type_of(other) == types.type_of(other)
}

/// Giving the arguments from position `i` on the types of the parameters.
proof fn lemma_types_are_set(
    start: Progress,
    at: Progress,
    args: Seq<SymbolicExpression>,
    params: Seq<FunctionArg>,
    i: nat,
)
    requires
        at.failure is None,
        at.generator.analysis.types is Some,
        i <= args.len(),
        i <= params.len(),
        forall|a: int, b: int|
            0 <= a < b < args.len() ==> (#[trigger] args[a]).id != (#[trigger] args[b]).id,
        is_typed_by(start, at, args.take(i as int), params),
    ensures
        is_typed_by(start, set_types_effect(at, args, params, i), args, params),
    decreases args.len() - i,
{
    if i >= args.len() || i >= params.len() {
        let after = set_types_effect(at, args, params, i);
        let first = args.take(i as int);
        let analysis = after.generator.analysis;
        assert forall|j: int| 0 <= j < args.len() && j < params.len() implies analysis.type_of(
            #[trigger] args[j],
        ) == Some(params[j].signature) by {
            assert(first[j] == args[j]);
        }
        assert forall|other: SymbolicExpression|
            (forall|j: int|
                0 <= j < args.len() && j < params.len() ==> (#[trigger] args[j]).id != other.id)
            implies #[trigger] analysis.type_of(other) == start.generator.analysis.type_of(
            other,
        ) by {
            assert(forall|j: int|
                0 <= j < first.len() && j < params.len() ==> (#[trigger] first[j]).id
                    != other.id) by {
                assert forall|j: int| 0 <= j < first.len() && j < params.len() implies (
                #[trigger] first[j]).id != other.id by {
                    assert(first[j] == args[j]);
                }
            }
        }
    } else {
        let next = Progress {
            generator: at.generator.with_type(args[i as int], params[i as int].signature),
            ..at
        };
        let (first, more) = (args.take(i as int), args.take(i as int + 1));
        let analysis = next.generator.analysis;
        assert forall|j: int| 0 <= j < more.len() && j < params.len() implies analysis.type_of(
            #[trigger] more[j],
        ) == Some(params[j].signature) by {
            assert(more[j] == args[j]);
            if j < i {
                assert(first[j] == args[j]);
                assert(args[j].id != args[i as int].id);
                assert(at.generator.analysis.type_of(first[j]) == Some(params[j].signature));
            }
        }
        assert forall|other: SymbolicExpression|
            (forall|j: int|
                0 <= j < more.len() && j < params.len() ==> (#[trigger] more[j]).id != other.id)
            implies #[trigger] analysis.type_of(other) == start.generator.analysis.type_of(
            other,
        ) by {
            assert(more[i as int] == args[i as int]);
            assert forall|j: int| 0 <= j < first.len() && j < params.len() implies (
            #[trigger] first[j]).id != other.id by {
                assert(more[j] == first[j]);
            }
            assert(at.generator.analysis.type_of(other) == start.generator.analysis.type_of(
                other,
            ));
        }
        assert(is_typed_by(start, next, more, params));
        lemma_types_are_set(start, next, args, params, i + 1);
    }
}

/// The function that a call names gets the values of all arguments, the first of them lowest
/// on the stack: where each argument leaves its own value, the code of the arguments leaves
/// these values one after the other, and then the function is called. Before that, the
/// arguments have the types of the parameters of the function.
pub proof fn law_call_gets_its_arguments<W: Words>(
    run: Run,
    words: &W,
    known: Condition,
    start: Progress,
    expr: SymbolicExpression,
    name: Seq<char>,
    args: Seq<SymbolicExpression>,
    values: Seq<Seq<Word>>,
    return_type: Rc<TypeSignature>,
    machine: Machine,
)
    requires
        is_list_of(expr, name, args),
        !words.is_complex(name),
        !words.is_simple(name),
        !words.is_variadic(name),
        start.failure is None,
        start.code.wf(),
        start.generator.analysis.types is Some,
        forall|a: int, b: int|
            0 <= a < b < args.len() ==> (#[trigger] args[a]).id != (#[trigger] args[b]).id,
        match start.generator.analysis.function_type(name) {
            Some(FunctionType::Fixed(function)) => forall|typed: Progress| #[trigger]
                is_typed_by(start, typed, args, function.args@) ==> known(0, typed, machine),
            _ => known(0, start, machine),
        },
        arguments_leave(run, words, known, args, values),
        forall|at: Progress, before: Machine| #[trigger]
            is_after(known, args.len(), at, before) ==> at.generator.analysis.type_of(expr)
                == Some(return_type),
    ensures
        exists|at: Progress, before: Machine|
            {
                &&& #[trigger] is_after(known, args.len(), at, before)
                &&& run.leads(start.code, at.code, machine, before)
                &&& before.stack == machine.stack + values.flatten()
                &&& list_effect(words, start, expr) == user_call_effect(at, *return_type, name)
            },
{
    lemma_list(start.generator.analysis, expr, name, args, Seq::empty());
    let typed = match start.generator.analysis.function_type(name) {
        Some(FunctionType::Fixed(function)) => {
            set_types_effect(start, args, function.args@, 0)
        },
        _ => start,
    };
    if let Some(FunctionType::Fixed(function)) = start.generator.analysis.function_type(name) {
        assert(is_typed_by(start, start, args.take(0), function.args@));
        lemma_types_are_set(start, start, args, function.args@, 0);
    }
    assert(is_after(known, 0, typed, machine));
    let at = args_effect(words, typed, args, 0);
    law_arguments_are_left_in_order(run, words, known, typed, args, values, machine);
    let before = choose|before: Machine|
        {
            &&& #[trigger] run.leads(typed.code, at.code, machine, before)
            &&& before.stack == machine.stack + values.flatten()
            &&& known(args.len(), at, before)
        };
    assert(is_after(known, args.len(), at, before));
    assert(list_effect(words, start, expr) == user_defined_effect(words, start, expr, name, args));
    assert(list_effect(words, start, expr) == user_call_effect(at, pointee(return_type), name));
}

} // verus!

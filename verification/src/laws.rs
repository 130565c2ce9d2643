//! What holds of the generator as a whole.
use std::rc::Rc;
use vstd::prelude::*;
use vstd::utf8::{decode_utf8, encode_utf8};

use crate::analysis::{AnalysisView, CharType, SymbolicExpression, Value};
use crate::arguments::{decimal, digit};
use crate::calls::{block_call_effect, copy_ops, reserve_ops, settle_call_effect};
use crate::generator::{pages_for, GeneratorView, PAGE_SIZE};
use crate::ir::{no_ops, CodeView, FunctionCode, ModuleView, Op, WasmType};
use crate::layout::{
    drops, is_integer_type, lemma_repr_is_integers, placeholder, placeholders, wasm_repr,
};
use crate::literal_table::{le_bytes, scalar_bytes, LiteralKey};
use crate::literals::{
    high_half, joined, literal_bytes, low_half, place_characters, place_identifier, place_string,
    place_value, signed64, word128,
};
use crate::machine::{capacity, lemma_run_both, lemma_run_push, word64, write_at, Machine, Word};
use crate::memory::{call_stack_ops, locals_from, pops_into, pushes};
use crate::memory_laws::{keeps_locals, value_bytes, with_words, words_have_types};
use crate::program::{
    define_function_effect, finished_module, param_bindings, param_types, FunctionKind,
};
use crate::progress::Progress;
use crate::types::{FunctionArg, TypeSignature};
use crate::words::Words;

verus! {

/// Popping `j` words into locals from `first` on.
pub proof fn lemma_pops(machine: Machine, rest: Seq<Word>, words: Seq<Word>, first: nat, j: nat)
    requires
        machine.stack == rest + words,
        j <= words.len(),
    ensures
        machine.run(pops_into(first, j)) matches Some(after) && {
            &&& after.stack == rest + words.take(words.len() - j)
            &&& after.memory == machine.memory
            &&& after.globals == machine.globals
            &&& after.host == machine.host
            &&& keeps_locals(machine, after, first)
            &&& forall|local: nat|
                first <= local < first + j ==> #[trigger] after.locals.contains_key(local)
                    && after.locals[local] == words[words.len() - 1 - (local - first)]
        },
    decreases j,
{
    broadcast use lemma_run_push;

    if j == 0 {
        assert(pops_into(first, 0) =~= no_ops());
        assert(words.take(words.len() as int) =~= words);
        assert(machine.run(pops_into(first, 0)) == Some(machine));
    } else {
        let k = (j - 1) as nat;
        lemma_pops(machine, rest, words, first, k);
        let before = machine.run(pops_into(first, k))->0;
        let op = Op::LocalSet(first + k);
        assert(pops_into(first, j) =~= pops_into(first, k).push(op));
        lemma_run_push(machine, pops_into(first, k), op);
        let after = before.step(op)->0;
        assert(machine.run(pops_into(first, j)) == Some(after));
        let word = words[words.len() - 1 - k];
        assert(before.stack.last() == word);
        assert(after.stack =~= rest + words.take(words.len() - j));
        assert(after.locals == before.locals.insert(first + k, word));
        assert(after.memory == machine.memory);
        assert(after.globals == machine.globals);
        assert(after.host == machine.host);
        assert(keeps_locals(machine, after, first)) by {
            assert forall|local: nat|
                local < first && #[trigger] machine.locals.contains_key(
                    local,
                ) implies after.locals.contains_key(local) && after.locals[local]
                == machine.locals[local] by {
                assert(before.locals.contains_key(local));
            }
        }
        assert forall|local: nat|
            first <= local < first + j implies #[trigger] after.locals.contains_key(local)
            && after.locals[local] == words[words.len() - 1 - (local - first)] by {
            if local < first + k {
                assert(before.locals.contains_key(local));
            }
        }
    }
}

/// Pushing the values of the first `j` locals of a list.
pub proof fn lemma_pushes(machine: Machine, locals: Seq<nat>, words: Seq<Word>, j: nat)
    requires
        j <= locals.len(),
        locals.len() == words.len(),
        forall|i: int|
            0 <= i < locals.len() ==> machine.locals.contains_key(#[trigger] locals[i])
                && machine.locals[locals[i]] == words[i],
    ensures
        machine.run(pushes(locals.take(j as int))) == Some(
            with_words(machine, words.take(j as int)),
        ),
    decreases j,
{
    broadcast use lemma_run_push;

    if j == 0 {
        assert(pushes(locals.take(0)) =~= no_ops());
        assert(machine.stack + words.take(0) =~= machine.stack);
    } else {
        let k = (j - 1) as nat;
        lemma_pushes(machine, locals, words, k);
        let op = Op::LocalGet(locals[k as int]);
        assert(pushes(locals.take(j as int)) =~= pushes(locals.take(k as int)).push(op));
        let before = with_words(machine, words.take(k as int));
        let after = before.step(op)->0;
        assert(after.stack =~= machine.stack + words.take(j as int));
    }
}

/// A value that was saved to locals in logical order comes back when those locals are
/// pushed.
pub proof fn law_saved_value_is_restored(
    ty: TypeSignature,
    machine: Machine,
    rest: Seq<Word>,
    words: Seq<Word>,
    first: nat,
)
    requires
        words_have_types(words, wasm_repr(ty)),
        machine.stack == rest + words,
    ensures
        machine.run(
            pops_into(first, wasm_repr(ty).len()) + pushes(
                locals_from(first, wasm_repr(ty).len()).reverse(),
            ),
        ) matches Some(after) && {
            &&& after.stack == machine.stack
            &&& after.memory == machine.memory
            &&& after.globals == machine.globals
            &&& keeps_locals(machine, after, first)
        },
{
    let k = wasm_repr(ty).len();
    let locals = locals_from(first, k).reverse();
    lemma_pops(machine, rest, words, first, k);
    let popped = machine.run(pops_into(first, k))->0;
    assert forall|i: int| 0 <= i < locals.len() implies popped.locals.contains_key(
        #[trigger] locals[i],
    ) && popped.locals[locals[i]] == words[i] by {
        assert(locals[i] == first + (k - 1 - i));
        assert(popped.locals.contains_key(locals[i]));
    }
    lemma_pushes(popped, locals, words, k);
    assert(locals.take(k as int) =~= locals);
    assert(words.take(k as int) =~= words);
    assert(words.take(0) =~= Seq::empty());
    assert(popped.stack =~= rest);
    lemma_run_both(machine, pops_into(first, k), pushes(locals));
}

/// Dropping `j` words.
proof fn lemma_drops(machine: Machine, rest: Seq<Word>, words: Seq<Word>, j: nat)
    requires
        machine.stack == rest + words,
        j <= words.len(),
    ensures
        machine.run(drops(j)) == Some(
            Machine { stack: rest + words.take(words.len() - j), ..machine },
        ),
    decreases j,
{
    broadcast use lemma_run_push;

    if j == 0 {
        assert(drops(0) =~= no_ops());
        assert(words.take(words.len() as int) =~= words);
    } else {
        let k = (j - 1) as nat;
        lemma_drops(machine, rest, words, k);
        assert(drops(j) =~= drops(k).push(Op::Drop));
        let before = Machine { stack: rest + words.take(words.len() - k), ..machine };
        assert(before.stack.drop_last() =~= rest + words.take(words.len() - j));
    }
}

/// Dropping a value takes exactly that value off the stack.
pub proof fn law_drop_takes_the_value(
    ty: TypeSignature,
    machine: Machine,
    rest: Seq<Word>,
    words: Seq<Word>,
)
    requires
        words_have_types(words, wasm_repr(ty)),
        machine.stack == rest + words,
    ensures
        machine.run(drops(wasm_repr(ty).len())) == Some(Machine { stack: rest, ..machine }),
{
    lemma_drops(machine, rest, words, wasm_repr(ty).len());
    assert(rest + words.take(0) =~= rest);
}

/// Zeros of the given types.
pub open spec fn zeros(types: Seq<WasmType>) -> Seq<Word> {
    types.map_values(
        |ty: WasmType|
            if ty is I64 {
                Word::I64(0)
            } else {
                Word::I32(0)
            },
    )
}

proof fn lemma_placeholders(machine: Machine, types: Seq<WasmType>, j: nat)
    requires
        j <= types.len(),
    ensures
        machine.run(placeholders(types.take(j as int))) == Some(
            with_words(machine, zeros(types.take(j as int))),
        ),
    decreases j,
{
    broadcast use lemma_run_push;

    if j == 0 {
        assert(placeholders(types.take(0)) =~= no_ops());
        assert(machine.stack + zeros(types.take(0)) =~= machine.stack);
    } else {
        let k = (j - 1) as nat;
        lemma_placeholders(machine, types, k);
        let ty = types[k as int];
        assert(placeholders(types.take(j as int)) =~= placeholders(types.take(k as int)).push(
            placeholder(ty),
        ));
        let before = with_words(machine, zeros(types.take(k as int)));
        let after = before.step(placeholder(ty))->0;
        assert(after.stack =~= machine.stack + zeros(types.take(j as int)));
    }
}

/// The placeholder for a value of a type is words of the types that such a value has, all
/// of them zero.
pub proof fn law_placeholder_has_the_type(ty: TypeSignature, machine: Machine)
    ensures
        machine.run(placeholders(wasm_repr(ty))) == Some(
            with_words(machine, zeros(wasm_repr(ty))),
        ),
        words_have_types(zeros(wasm_repr(ty)), wasm_repr(ty)),
{
    let types = wasm_repr(ty);
    lemma_placeholders(machine, types, types.len());
    assert(types.take(types.len() as int) =~= types);
    lemma_repr_is_integers(ty);
    reveal(crate::layout::all_integers);
    assert forall|i: int| 0 <= i < types.len() implies crate::machine::type_of_word(
        #[trigger] zeros(types)[i],
    ) == types[i] by {
        assert(is_integer_type(types[i]));
    }
}

/// Making room on the call stack leaves the stack as it was, notes where the room is, and
/// moves the stack pointer past it.
pub proof fn law_call_stack_room(
    machine: Machine,
    stack_pointer: nat,
    local: nat,
    size: i32,
    address: u32,
)
    requires
        machine.globals.contains_key(stack_pointer),
        machine.globals[stack_pointer] == Word::I32(address),
        size >= 0,
        address + size <= u32::MAX,
    ensures
        machine.run(call_stack_ops(stack_pointer, local, size)) == Some(
            Machine {
                locals: machine.locals.insert(local, Word::I32(address)),
                globals: machine.globals.insert(stack_pointer, Word::I32((address + size) as u32)),
                ..machine
            },
        ),
{
    broadcast use lemma_run_push;

    let m0 = machine;
    assert(m0.run(no_ops()) == Some(m0));
    let m1 = m0.step(Op::GlobalGet(stack_pointer))->0;
    let m2 = m1.step(Op::LocalTee(local))->0;
    let m3 = m2.step(Op::I32Const(size))->0;
    assert(m3.stack.drop_last() =~= m2.stack);
    assert(m2.stack.drop_last() =~= m0.stack);
    let m4 = m3.step(Op::I32Add)->0;
    assert(m4.stack.drop_last() =~= m0.stack);
    let m5 = m4.step(Op::GlobalSet(stack_pointer))->0;
    assert(m5.stack =~= m0.stack);
}

/// Two rooms on the call stack do not overlap: the second starts where the first ends.
pub proof fn law_call_stack_rooms_are_apart(
    machine: Machine,
    stack_pointer: nat,
    first: nat,
    first_size: i32,
    second: nat,
    second_size: i32,
    address: u32,
)
    requires
        machine.globals.contains_key(stack_pointer),
        machine.globals[stack_pointer] == Word::I32(address),
        first_size >= 0,
        second_size >= 0,
        address + first_size + second_size <= u32::MAX,
        first != second,
    ensures
        machine.run(
            call_stack_ops(stack_pointer, first, first_size) + call_stack_ops(
                stack_pointer,
                second,
                second_size,
            ),
        ) matches Some(after) && {
            &&& after.locals[first] == Word::I32(address)
            &&& after.locals[second] == Word::I32((address + first_size) as u32)
            &&& after.globals[stack_pointer] == Word::I32(
                (address + first_size + second_size) as u32,
            )
        },
{
    law_call_stack_room(machine, stack_pointer, first, first_size, address);
    let between = machine.run(call_stack_ops(stack_pointer, first, first_size))->0;
    law_call_stack_room(
        between,
        stack_pointer,
        second,
        second_size,
        (address + first_size) as u32,
    );
    lemma_run_both(
        machine,
        call_stack_ops(stack_pointer, first, first_size),
        call_stack_ops(stack_pointer, second, second_size),
    );
}

/// Making room for a result at the stack pointer.
pub proof fn lemma_reserve(
    machine: Machine,
    rest: Seq<Word>,
    from: u32,
    length: u32,
    to: u32,
    n: nat,
    stack_pointer: nat,
)
    requires
        machine.stack == rest.push(Word::I32(from)).push(Word::I32(length)),
        machine.globals.contains_key(stack_pointer),
        machine.globals[stack_pointer] == Word::I32(to),
        to + length <= u32::MAX,
    ensures
        machine.run(reserve_ops(n, stack_pointer)) == Some(
            Machine {
                stack: rest,
                locals: machine.locals.insert(n + 1, Word::I32(length)).insert(
                    n,
                    Word::I32(from),
                ).insert(n + 2, Word::I32(to)),
                globals: machine.globals.insert(stack_pointer, Word::I32((to + length) as u32)),
                ..machine
            },
        ),
{
    broadcast use lemma_run_push;

    let m0 = machine;
    assert(m0.run(no_ops()) == Some(m0));
    let m1 = m0.step(Op::LocalSet(n + 1))->0;
    assert(m1.stack =~= rest.push(Word::I32(from)));
    let m2 = m1.step(Op::LocalSet(n))->0;
    assert(m2.stack =~= rest);
    let m3 = m2.step(Op::GlobalGet(stack_pointer))->0;
    let m4 = m3.step(Op::LocalTee(n + 2))->0;
    let m5 = m4.step(Op::LocalGet(n + 1))->0;
    assert(m5.stack.drop_last() =~= m4.stack);
    assert(m4.stack.drop_last() =~= rest);
    let m6 = m5.step(Op::I32Add)->0;
    assert(m6.stack.drop_last() =~= rest);
    let m7 = m6.step(Op::GlobalSet(stack_pointer))->0;
    assert(m7.stack =~= rest);
}

/// Copying a result into the room that was made for it.
pub proof fn lemma_copy(machine: Machine, from: u32, length: u32, to: u32, n: nat, memory: nat)
    requires
        machine.locals.contains_key(n),
        machine.locals[n] == Word::I32(from),
        machine.locals.contains_key(n + 1),
        machine.locals[n + 1] == Word::I32(length),
        machine.locals.contains_key(n + 2),
        machine.locals[n + 2] == Word::I32(to),
        from + length <= machine.memory.len(),
        to + length <= machine.memory.len(),
    ensures
        machine.run(copy_ops(n, memory)) == Some(
            Machine {
                stack: machine.stack.push(Word::I32(to)).push(Word::I32(length)),
                memory: write_at(
                    machine.memory,
                    to as nat,
                    machine.memory.subrange(from as int, from + length),
                ),
                ..machine
            },
        ),
{
    broadcast use lemma_run_push;

    assert(machine.run(no_ops()) == Some(machine));
    let m1 = machine.step(Op::LocalGet(n + 2))->0;
    let m2 = m1.step(Op::LocalGet(n))->0;
    let m3 = m2.step(Op::LocalGet(n + 1))->0;
    assert(m3.stack.drop_last() =~= m2.stack);
    assert(m2.stack.drop_last() =~= m1.stack);
    assert(m1.stack.drop_last() =~= machine.stack);
    let m4 = m3.step(Op::MemoryCopy { source: memory, destination: memory })->0;
    assert(m4.stack =~= machine.stack);
}

/// A result that is in memory is copied to where the stack pointer was, and the stack
/// pointer moves past it.
pub proof fn law_result_is_copied(
    machine: Machine,
    rest: Seq<Word>,
    from: u32,
    length: u32,
    to: u32,
    n: nat,
    stack_pointer: nat,
    memory: nat,
)
    requires
        machine.stack == rest.push(Word::I32(from)).push(Word::I32(length)),
        machine.globals.contains_key(stack_pointer),
        machine.globals[stack_pointer] == Word::I32(to),
        from + length <= machine.memory.len(),
        to + length <= machine.memory.len(),
        to + length <= u32::MAX,
    ensures
        machine.run(reserve_ops(n, stack_pointer) + copy_ops(n, memory)) matches Some(after) && {
            &&& after.stack == rest.push(Word::I32(to)).push(Word::I32(length))
            &&& after.globals == machine.globals.insert(
                stack_pointer,
                Word::I32((to + length) as u32),
            )
            &&& after.memory == write_at(
                machine.memory,
                to as nat,
                machine.memory.subrange(from as int, from + length),
            )
        },
{
    lemma_reserve(machine, rest, from, length, to, n, stack_pointer);
    let reserved = machine.run(reserve_ops(n, stack_pointer))->0;
    lemma_copy(reserved, from, length, to, n, memory);
    lemma_run_both(machine, reserve_ops(n, stack_pointer), copy_ops(n, memory));
}

/// The low bytes of a number do not depend on the rest of it.
proof fn lemma_low_bytes(value: nat, n: nat)
    ensures
        capacity(n) > 0,
        le_bytes(value, n) == le_bytes(value % capacity(n), n),
    decreases n,
{
    if n > 0 {
        let c = capacity((n - 1) as nat) as int;
        let v = value as int;
        lemma_low_bytes(value / 256, (n - 1) as nat);
        vstd::arithmetic::div_mod::lemma_breakdown(v, 256, c);
        // The remainder has the same lowest byte, and above it the remainder of the rest.
        assert(v % (256 * c) == 256 * ((v / 256) % c) + v % 256);
        assert((v % (256 * c)) % 256 == v % 256);
        assert((v % (256 * c)) / 256 == (v / 256) % c);
    }
}

/// The bytes of a number are its low bytes, then the bytes of the rest.
proof fn lemma_split_bytes(value: nat, low: nat, high: nat)
    ensures
        capacity(low) > 0,
        le_bytes(value, low + high) == le_bytes(value, low) + le_bytes(
            value / capacity(low),
            high,
        ),
    decreases low,
{
    if low == 0 {
        let one = capacity(0);
        assert(one == 1);
        assert(value / one == value) by (nonlinear_arith)
            requires
                one == 1,
        ;
        assert(le_bytes(value, 0) =~= Seq::empty());
        assert(le_bytes(value, 0) + le_bytes(value, high) =~= le_bytes(value, high));
    } else {
        let rest = (low - 1) as nat;
        lemma_split_bytes(value / 256, rest, high);
        vstd::arithmetic::div_mod::lemma_div_denominator(
            value as int,
            256,
            capacity(rest) as int,
        );
        assert(capacity(low) == 256 * capacity(rest));
        assert((value / 256) / capacity(rest) == value / capacity(low));
        let first = seq![(value % 256) as u8];
        let top = le_bytes(value / capacity(low), high);
        assert((low + high - 1) as nat == rest + high);
        assert(le_bytes(value, low + high) == first + le_bytes(value / 256, rest + high));
        assert(le_bytes(value, low) == first + le_bytes(value / 256, rest));
        assert(le_bytes(value / 256, rest + high) == le_bytes(value / 256, rest) + top);
        assert(first + (le_bytes(value / 256, rest) + top) =~= first + le_bytes(value / 256, rest)
            + top);
    }
}

/// The words that represent a number on the stack: its low half, then its high half.
pub open spec fn number_words(word: nat) -> Seq<Word> {
    seq![
        Word::I64((word % 0x1_0000_0000_0000_0000) as u64),
        Word::I64((word / 0x1_0000_0000_0000_0000) as u64),
    ]
}

/// A number is the same whether it is pushed, or put into the literal memory and read from
/// there: the instructions that push it leave its two halves, and the bytes that are put
/// into memory are those that represent these halves.
pub proof fn law_number_literal(number: i128, machine: Machine)
    ensures
        machine.run(
            no_ops()
                .push(Op::I64Const(low_half(word128(number))))
                .push(Op::I64Const(high_half(word128(number)))),
        ) == Some(with_words(machine, number_words(word128(number)))),
        literal_bytes(Value::Int(number)) == Some(
            value_bytes(TypeSignature::IntType, number_words(word128(number))),
        ),
{
    lemma_number(word128(number), machine);
}

/// The same for a number without a sign.
pub proof fn law_unsigned_number_literal(number: u128, machine: Machine)
    ensures
        machine.run(
            no_ops()
                .push(Op::I64Const(low_half(number as nat)))
                .push(Op::I64Const(high_half(number as nat))),
        ) == Some(with_words(machine, number_words(number as nat))),
        literal_bytes(Value::UInt(number)) == Some(
            value_bytes(TypeSignature::UIntType, number_words(number as nat)),
        ),
{
    lemma_number(number as nat, machine);
}

proof fn lemma_number(word: nat, machine: Machine)
    requires
        word <= u128::MAX,
    ensures
        machine.run(
            no_ops()
                .push(Op::I64Const(low_half(word)))
                .push(Op::I64Const(high_half(word))),
        ) == Some(with_words(machine, number_words(word))),
        le_bytes(word, 16) == value_bytes(TypeSignature::IntType, number_words(word)),
        le_bytes(word, 16) == value_bytes(TypeSignature::UIntType, number_words(word)),
{
    broadcast use lemma_run_push;

    let half = 0x1_0000_0000_0000_0000nat;
    assert(machine.run(no_ops()) == Some(machine));
    assert(word64(signed64(word % half)) == (word % half) as u64);
    assert(word64(signed64(word / half)) == (word / half) as u64);
    let m1 = machine.step(Op::I64Const(low_half(word)))->0;
    let m2 = m1.step(Op::I64Const(high_half(word)))->0;
    assert(m2.stack =~= machine.stack + number_words(word));
    reveal_with_fuel(capacity, 9);
    assert(capacity(8) == half);
    lemma_split_bytes(word, 8, 8);
    lemma_low_bytes(word, 8);
}

/// A generator starts with the contract and the module that it is given, and with nothing
/// else: no names, no literals, no function to return from, and an empty frame.
pub proof fn law_generator_starts_empty(
    analysis: AnalysisView,
    standard: ModuleView,
    stack_pointer: nat,
)
    ensures
        ({
            let generator = GeneratorView::initial(analysis, standard, stack_pointer);
            &&& generator.analysis == analysis
            &&& generator.module == standard
            &&& generator.stack_pointer == stack_pointer
            &&& generator.frame_size == 0
            &&& generator.early_return_block is None
            &&& generator.return_type is None
            &&& forall|name: Seq<char>|
                !(#[trigger] generator.constants.contains_key(name))
                    && !generator.bindings.contains_key(name)
                    && !generator.datavars_types.contains_key(name)
                    && !generator.maps_types.contains_key(name)
            &&& forall|key: LiteralKey| !(#[trigger] generator.literals.contains_key(key))
            &&& generator.literal_segments().len() == 0
        }),
{
}

/// As many pages as bytes need are enough for them, and one less is not.
pub proof fn law_pages_are_just_enough(bytes: nat)
    ensures
        pages_for(bytes) * PAGE_SIZE >= bytes,
        pages_for(bytes) > 0 ==> (pages_for(bytes) - 1) * PAGE_SIZE < bytes,
{
}

/// The number that a text of decimal digits stands for.
pub open spec fn number_of(digits: Seq<char>) -> int
    decreases digits.len(),
{
    if digits.len() == 0 {
        0
    } else {
        10 * number_of(digits.drop_last()) + (digits.last() as int - '0' as int)
    }
}

/// The position that an error names is that of the argument: its decimal digits stand for
/// it, and none but zero starts with a zero.
pub proof fn law_position_is_named(position: nat)
    ensures
        decimal(position).len() > 0,
        number_of(decimal(position)) == position,
        position > 0 ==> decimal(position)[0] != '0',
        forall|i: int|
            0 <= i < decimal(position).len() ==> '0' <= #[trigger] decimal(position)[i] <= '9',
    decreases position,
{
    let digits = decimal(position);
    if position >= 10 {
        law_position_is_named(position / 10);
        assert(digits.drop_last() =~= decimal(position / 10));
        assert(digits.last() == digit(position % 10));
    } else {
        assert(digits.drop_last() =~= Seq::empty());
        assert(number_of(digits.drop_last()) == 0);
    }
}

/// Setting the type of an expression sets it, and leaves the types of other expressions
/// alone.
pub proof fn law_set_type_is_found(
    analysis: AnalysisView,
    expr: SymbolicExpression,
    ty: Rc<TypeSignature>,
    other: SymbolicExpression,
)
    requires
        analysis.types is Some,
    ensures
        analysis.with_type(expr, ty).type_of(expr) == Some(ty),
        other.id != expr.id ==> analysis.with_type(expr, ty).type_of(other) == analysis.type_of(
            other,
        ),
{
}

/// Placing a literal keeps every literal that was placed before: the bytes that were in
/// memory are still there, strings that were noted are still noted at the same offset, and
/// the end of the literal memory does not move back.
pub proof fn law_literals_are_kept(generator: GeneratorView, value: Value, key: LiteralKey)
    ensures
        ({
            let after = place_value(generator, value).generator;
            &&& generator.module.data.is_prefix_of(after.module.data)
            &&& generator.literals.contains_key(key) ==> after.literals.contains_key(key)
                && after.literals[key] == generator.literals[key]
            &&& generator.literal_memory_end <= after.literal_memory_end
        }),
{
}

/// The same for an identifier.
pub proof fn law_identifiers_are_kept(generator: GeneratorView, name: Seq<char>, key: LiteralKey)
    ensures
        ({
            let after = place_identifier(generator, name).generator;
            &&& generator.module.data.is_prefix_of(after.module.data)
            &&& generator.literals.contains_key(key) ==> after.literals.contains_key(key)
                && after.literals[key] == generator.literals[key]
            &&& generator.literal_memory_end <= after.literal_memory_end
        }),
{
}

/// A string is stored once.
proof fn lemma_stored_once(
    generator: GeneratorView,
    key: LiteralKey,
    bytes: Seq<u8>,
    length: nat,
)
    requires
        place_string(generator, key, bytes, length).place is Ok,
        generator.literals.contains_key(key) || length == bytes.len(),
    ensures
        ({
            let placed = place_string(generator, key, bytes, length);
            place_string(placed.generator, key, bytes, length) == placed
        }),
{
    let placed = place_string(generator, key, bytes, length);
    let again = place_string(placed.generator, key, bytes, length);
    assert(again.generator == placed.generator);
}

/// An ASCII string is stored once: placing it again changes nothing and gives the same
/// place.
pub proof fn law_ascii_is_stored_once(generator: GeneratorView, data: Vec<u8>)
    requires
        place_characters(generator, CharType::ASCII(data)).place is Ok,
    ensures
        ({
            let placed = place_characters(generator, CharType::ASCII(data));
            place_characters(placed.generator, CharType::ASCII(data)) == placed
        }),
{
    lemma_stored_once(
        generator,
        LiteralKey::Ascii(crate::clarity_vm::ascii_display(data@)),
        data@,
        data@.len(),
    );
}

/// An identifier is stored once.
pub proof fn law_identifier_is_stored_once(generator: GeneratorView, name: Seq<char>)
    requires
        place_identifier(generator, name).place is Ok,
    ensures
        ({
            let placed = place_identifier(generator, name);
            place_identifier(placed.generator, name) == placed
        }),
{
    lemma_stored_once(
        generator,
        LiteralKey::Ascii(name),
        encode_utf8(name),
        encode_utf8(name).len(),
    );
}

/// Each character takes four bytes.
pub proof fn law_scalar_bytes_len(text: Seq<char>)
    ensures
        scalar_bytes(text).len() == 4 * text.len(),
    decreases text.len(),
{
    reveal_with_fuel(crate::literal_table::be_bytes, 5);
    if text.len() > 0 {
        law_scalar_bytes_len(text.drop_last());
    }
}

/// A UTF-8 string each element of which encodes one character is stored once.
pub proof fn law_utf8_is_stored_once(generator: GeneratorView, data: Vec<Vec<u8>>)
    requires
        place_characters(generator, CharType::UTF8(data)).place is Ok,
        decode_utf8(joined(data@, data@.len())).len() == data@.len(),
    ensures
        ({
            let placed = place_characters(generator, CharType::UTF8(data));
            place_characters(placed.generator, CharType::UTF8(data)) == placed
        }),
{
    let text = decode_utf8(joined(data@, data@.len()));
    law_scalar_bytes_len(text);
    lemma_stored_once(generator, LiteralKey::Utf8(text), scalar_bytes(text), 4 * data@.len());
}

/// A function that was defined leaves nothing of its own behind in the generator: the
/// bindings are those from before, and there is no function to return from.
pub proof fn law_definition_is_closed<W: Words>(
    words: &W,
    start: Progress,
    name: Seq<char>,
    body: SymbolicExpression,
    kind: FunctionKind,
)
    requires
        define_function_effect(words, start, name, body, kind).failure is None,
    ensures
        ({
            let after = define_function_effect(words, start, name, body, kind).generator;
            &&& after.bindings == start.generator.bindings
            &&& after.return_type is None
            &&& after.early_return_block is None
        }),
{
}

/// What a call in a block of its own leaves.
pub proof fn lemma_block_call(start: Progress, name: Seq<char>)
    requires
        start.failure is None,
        start.code.wf(),
        start.generator.module.has_function(name),
    ensures
        ({
            let after = block_call_effect(start, name);
            let blocks = start.code.function.blocks;
            &&& after.failure is None
            &&& after.generator == start.generator
            &&& after.code.block == start.code.block
            &&& after.code.function.blocks.len() == blocks.len() + 1
            &&& after.code.function.blocks.take(blocks.len() as int) == blocks
            &&& after.code.function.blocks.last().ops == seq![
                Op::Call(start.generator.module.function(name)),
            ]
        }),
{
    reveal(CodeView::emit);
    let after = block_call_effect(start, name);
    let blocks = start.code.function.blocks;
    assert(after.code.function.blocks.take(blocks.len() as int) =~= blocks);
    assert(after.code.function.blocks.last().ops =~= seq![
        Op::Call(start.generator.module.function(name)),
    ]);
}

/// A public call is settled by its result: where the first word of the result is not zero
/// the call is committed, else it is rolled back, and then the result is pushed again.
pub proof fn law_public_call_is_settled(start: Progress, result_locals: Seq<nat>)
    requires
        start.failure is None,
        start.code.wf(),
        result_locals.len() > 0,
        start.generator.module.has_function("stdlib.commit_call"@),
        start.generator.module.has_function("stdlib.roll_back_call"@),
    ensures
        ({
            let after = settle_call_effect(start, result_locals);
            let module = start.generator.module;
            let commit = start.code.function.blocks.len();
            let block = start.code.block as int;
            let blocks = after.code.function.blocks;
            &&& after.failure is None
            &&& after.generator == start.generator
            &&& blocks.len() == commit + 2
            &&& blocks[commit as int].ops == seq![
                Op::Call(module.function("stdlib.commit_call"@)),
            ]
            &&& blocks[commit as int + 1].ops == seq![
                Op::Call(module.function("stdlib.roll_back_call"@)),
            ]
            &&& blocks[block].ops == start.code.function.blocks[block].ops + seq![
                Op::LocalGet(result_locals[0]),
                Op::IfElse { consequent: commit, alternative: commit + 1 },
            ] + pushes(result_locals)
        }),
{
    let committed = block_call_effect(start, "stdlib.commit_call"@);
    lemma_block_call(start, "stdlib.commit_call"@);
    lemma_block_call(committed, "stdlib.roll_back_call"@);
    let settled = block_call_effect(committed, "stdlib.roll_back_call"@);
    let after = settle_call_effect(start, result_locals);
    let commit = start.code.function.blocks.len();
    let block = start.code.block as int;
    reveal(CodeView::emit_all);
    let before = start.code.function.blocks;
    let between = committed.code.function.blocks;
    let blocks = settled.code.function.blocks;
    assert(between.take(commit as int)[block] == before[block]);
    assert(blocks.take(commit as int + 1)[block] == between[block]);
    assert(blocks.take(commit as int + 1)[commit as int] == between[commit as int]);
    assert(after.code.function.blocks[block].ops =~= before[block].ops + seq![
        Op::LocalGet(result_locals[0]),
        Op::IfElse { consequent: commit, alternative: commit + 1 },
    ] + pushes(result_locals));
}

/// A function stays the first of its name when others are added after it.
pub proof fn law_function_keeps_its_name(module: ModuleView, more: FunctionCode, name: Seq<char>)
    requires
        module.has_function(name),
    ensures
        module.add_function(more, Seq::empty()).function_named(name) == module.function_named(
            name,
        ),
{
    let after = module.add_function(more, Seq::empty()).functions;
    assert(after.drop_last() =~= module.functions);
}

/// The locals of a parameter follow those of the parameters before it.
pub proof fn law_parameters_follow_each_other(
    params: Seq<FunctionArg>,
    n: nat,
    first: nat,
    i: nat,
)
    requires
        i < n <= params.len(),
        forall|j: int| i < j < n ==> (#[trigger] params[j]).name@ != params[i as int].name@,
    ensures
        param_bindings(params, n, first).contains_key(params[i as int].name@),
        param_bindings(params, n, first)[params[i as int].name@] == locals_from(
            first + param_types(params, i).len(),
            wasm_repr(*params[i as int].signature).len(),
        ),
    decreases n,
{
    if i + 1 < n {
        law_parameters_follow_each_other(params, (n - 1) as nat, first, i);
    }
}

/// The memory of a finished module has room for the literals and the stack frames, and no
/// page more than that takes.
pub proof fn law_memory_has_room(visited: Progress)
    requires
        visited.generator.module.memories.len() > 0,
        visited.generator.frame_size >= 0,
    ensures
        finished_module(visited).memories[0].initial * PAGE_SIZE
            >= visited.generator.literal_memory_end + visited.generator.frame_size,
        finished_module(visited).memories[0].initial > 0 ==> (
        finished_module(visited).memories[0].initial - 1) * PAGE_SIZE
            < visited.generator.literal_memory_end + visited.generator.frame_size,
{
    law_pages_are_just_enough(
        (visited.generator.literal_memory_end + visited.generator.frame_size) as nat,
    );
}

} // verus!

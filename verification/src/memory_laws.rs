//! What the instructions that write and read values do: a value that was written is read
//! back.
use vstd::prelude::*;

use crate::ir::{no_ops, Op, WasmType};
use crate::layout::{
    fields_repr, fields_size, type_size, wasm_repr,
};
use crate::machine::{
    lemma_run_both, lemma_run_push, lemma_word_of_word_bytes, type_of_word, width, word_bytes,
    write_at, Machine, Word,
};
use crate::memory::{
    fields_read_ops, fields_write_locals, fields_write_ops, load, read_ops, read_slot, store,
    write_indicator, write_locals, write_ops,
};
use crate::types::{are_value_types, is_value_type, TypeSignature};

verus! {

/// Whether words have the given types.
pub open spec fn words_have_types(words: Seq<Word>, types: Seq<WasmType>) -> bool {
    &&& words.len() == types.len()
    &&& forall|i: int| 0 <= i < words.len() ==> type_of_word(#[trigger] words[i]) == types[i]
}

/// The bytes that represent a value in memory, given the words that represent it on the
/// stack.
pub open spec fn value_bytes(ty: TypeSignature, words: Seq<Word>) -> Seq<u8>
    decreases ty, 0int,
{
    match ty {
        TypeSignature::IntType
        | TypeSignature::UIntType
        | TypeSignature::PrincipalType
        | TypeSignature::CallableType
        | TypeSignature::TraitReferenceType
        | TypeSignature::SequenceType(_) => word_bytes(words[0]) + word_bytes(words[1]),
        TypeSignature::BoolType => word_bytes(words[0]),
        TypeSignature::NoType => word_bytes(Word::I32(0)),
        TypeSignature::OptionalType(inner) => word_bytes(words[0]) + value_bytes(
            *inner,
            words.skip(1),
        ),
        TypeSignature::ResponseType(inner) => {
            let n = wasm_repr(inner.0).len() as int;
            word_bytes(words[0]) + value_bytes(inner.0, words.subrange(1, 1 + n)) + value_bytes(
                inner.1,
                words.skip(1 + n),
            )
        },
        TypeSignature::TupleType(tuple) => fields_bytes(tuple@, tuple@.len(), words),
        TypeSignature::ListUnionType => Seq::empty(),
    }
}

/// The bytes that represent the first `n` fields of a tuple.
pub open spec fn fields_bytes(
    fields: Seq<(String, TypeSignature)>,
    n: nat,
    words: Seq<Word>,
) -> Seq<u8>
    decreases fields, n,
{
    if n == 0 || n > fields.len() {
        Seq::empty()
    } else {
        let before = fields_repr(fields, (n - 1) as nat).len() as int;
        fields_bytes(fields, (n - 1) as nat, words.take(before)) + value_bytes(
            fields[n - 1].1,
            words.skip(before),
        )
    }
}

/// The words that represent a value once it was written and read: a value that is never
/// there becomes zero.
pub open spec fn settled(ty: TypeSignature, words: Seq<Word>) -> Seq<Word>
    decreases ty, 0int,
{
    match ty {
        TypeSignature::NoType => seq![Word::I32(0)],
        TypeSignature::OptionalType(inner) => seq![words[0]] + settled(*inner, words.skip(1)),
        TypeSignature::ResponseType(inner) => {
            let n = wasm_repr(inner.0).len() as int;
            seq![words[0]] + settled(inner.0, words.subrange(1, 1 + n)) + settled(
                inner.1,
                words.skip(1 + n),
            )
        },
        TypeSignature::TupleType(tuple) => fields_settled(
            tuple@,
            tuple@.len(),
            words,
        ),
        _ => words,
    }
}

/// The words that represent the first `n` fields of a tuple once they were written and
/// read.
pub open spec fn fields_settled(
    fields: Seq<(String, TypeSignature)>,
    n: nat,
    words: Seq<Word>,
) -> Seq<Word>
    decreases fields, n,
{
    if n == 0 || n > fields.len() {
        Seq::empty()
    } else {
        let before = fields_repr(fields, (n - 1) as nat).len() as int;
        fields_settled(fields, (n - 1) as nat, words.take(before)) + settled(
            fields[n - 1].1,
            words.skip(before),
        )
    }
}

/// Words on the stack split like the types that they have.
pub proof fn lemma_split_types(words: Seq<Word>, left: Seq<WasmType>, right: Seq<WasmType>)
    requires
        words_have_types(words, left + right),
    ensures
        words_have_types(words.take(left.len() as int), left),
        words_have_types(words.skip(left.len() as int), right),
        words == words.take(left.len() as int) + words.skip(left.len() as int),
{
    let n = left.len() as int;
    assert forall|i: int| 0 <= i < n implies type_of_word(#[trigger] words.take(n)[i])
        == left[i] by {
        assert(words.take(n)[i] == words[i]);
        assert((left + right)[i] == left[i]);
    }
    assert forall|i: int| 0 <= i < right.len() implies type_of_word(#[trigger] words.skip(n)[i])
        == right[i] by {
        assert(words.skip(n)[i] == words[n + i]);
        assert((left + right)[n + i] == right[i]);
    }
    assert(words =~= words.take(n) + words.skip(n));
}

/// The words of a response: its indicator, and those of its two values.
pub proof fn lemma_split_response(words: Seq<Word>, ok_ty: TypeSignature, err_ty: TypeSignature)
    requires
        words_have_types(words, seq![WasmType::I32] + wasm_repr(ok_ty) + wasm_repr(err_ty)),
    ensures
        type_of_word(words[0]) == WasmType::I32,
        words_have_types(
            words.subrange(1, 1 + wasm_repr(ok_ty).len() as int),
            wasm_repr(ok_ty),
        ),
        words_have_types(words.skip(1 + wasm_repr(ok_ty).len() as int), wasm_repr(err_ty)),
        words == seq![words[0]] + words.subrange(1, 1 + wasm_repr(ok_ty).len() as int)
            + words.skip(1 + wasm_repr(ok_ty).len() as int),
{
    let head = seq![WasmType::I32];
    let n = wasm_repr(ok_ty).len() as int;
    lemma_split_types(words, head + wasm_repr(ok_ty), wasm_repr(err_ty));
    lemma_split_types(words.take(1 + n), head, wasm_repr(ok_ty));
    assert(words.take(1 + n).skip(1) =~= words.subrange(1, 1 + n));
    assert(words.take(1 + n).take(1)[0] == words[0]);
    assert(words =~= seq![words[0]] + words.subrange(1, 1 + n) + words.skip(1 + n));
}

/// The words of an optional: its indicator, and those of its value.
pub proof fn lemma_split_optional(words: Seq<Word>, ty: TypeSignature)
    requires
        words_have_types(words, seq![WasmType::I32] + wasm_repr(ty)),
    ensures
        type_of_word(words[0]) == WasmType::I32,
        words_have_types(words.skip(1), wasm_repr(ty)),
        words == seq![words[0]] + words.skip(1),
{
    lemma_split_types(words, seq![WasmType::I32], wasm_repr(ty));
    assert(words.take(1)[0] == words[0]);
    assert(words =~= seq![words[0]] + words.skip(1));
}

/// The bytes that represent a value are as many as its type says.
pub proof fn lemma_value_bytes_len(ty: TypeSignature, words: Seq<Word>)
    requires
        is_value_type(ty),
        words_have_types(words, wasm_repr(ty)),
    ensures
        value_bytes(ty, words).len() == type_size(ty),
    decreases ty, 0int,
{
    match ty {
        TypeSignature::OptionalType(inner) => {
            lemma_split_optional(words, *inner);
            lemma_word_of_word_bytes(words[0]);
            lemma_value_bytes_len(*inner, words.skip(1));
        },
        TypeSignature::ResponseType(inner) => {
            let n = wasm_repr(inner.0).len() as int;
            lemma_split_response(words, inner.0, inner.1);
            lemma_word_of_word_bytes(words[0]);
            lemma_value_bytes_len(inner.0, words.subrange(1, 1 + n));
            lemma_value_bytes_len(inner.1, words.skip(1 + n));
        },
        TypeSignature::TupleType(tuple) => {
            lemma_fields_bytes_len(tuple@, tuple@.len(), words);
        },
        TypeSignature::NoType => {
            lemma_word_of_word_bytes(Word::I32(0));
        },
        TypeSignature::BoolType => {
            assert(type_of_word(words[0]) == wasm_repr(ty)[0]);
            lemma_word_of_word_bytes(words[0]);
        },
        _ => {
            assert(type_of_word(words[0]) == wasm_repr(ty)[0]);
            assert(type_of_word(words[1]) == wasm_repr(ty)[1]);
            lemma_word_of_word_bytes(words[0]);
            lemma_word_of_word_bytes(words[1]);
        },
    }
}

proof fn lemma_fields_bytes_len(fields: Seq<(String, TypeSignature)>, n: nat, words: Seq<Word>)
    requires
        n <= fields.len(),
        are_value_types(fields, n),
        words_have_types(words, fields_repr(fields, n)),
    ensures
        fields_bytes(fields, n, words).len() == fields_size(fields, n),
    decreases fields, n,
{
    if n > 0 {
        let before = fields_repr(fields, (n - 1) as nat);
        lemma_split_types(words, before, wasm_repr(fields[n - 1].1));
        lemma_fields_bytes_len(fields, (n - 1) as nat, words.take(before.len() as int));
        lemma_value_bytes_len(fields[n - 1].1, words.skip(before.len() as int));
    }
}

/// Writing two neighbouring parts, in either order, is writing them at once.
proof fn lemma_write_parts(memory: Seq<u8>, address: nat, left: Seq<u8>, right: Seq<u8>)
    requires
        address + left.len() + right.len() <= memory.len(),
    ensures
        write_at(write_at(memory, address, left), address + left.len(), right) == write_at(
            memory,
            address,
            left + right,
        ),
        write_at(write_at(memory, address + left.len(), right), address, left) == write_at(
            memory,
            address,
            left + right,
        ),
{
    let whole = write_at(memory, address, left + right);
    assert(write_at(write_at(memory, address, left), address + left.len(), right) =~= whole);
    assert(write_at(write_at(memory, address + left.len(), right), address, left) =~= whole);
}

/// Whether `after` is `before` with bytes written to memory and with nothing but `rest`
/// on the stack. Locals from position `n` on may have changed.
pub open spec fn wrote(
    before: Machine,
    after: Machine,
    rest: Seq<Word>,
    address: nat,
    bytes: Seq<u8>,
    n: nat,
) -> bool {
    &&& after.stack == rest
    &&& after.globals == before.globals
    &&& after.memory == write_at(before.memory, address, bytes)
    &&& after.host == before.host
    &&& keeps_locals(before, after, n)
}

/// Whether the locals from position `first` on hold words of the given types.
pub open spec fn locals_hold(machine: Machine, first: nat, types: Seq<WasmType>) -> bool {
    forall|local: nat|
        first <= local < first + types.len() ==> #[trigger] machine.locals.contains_key(local)
            && type_of_word(machine.locals[local]) == types[local - first]
}

/// Locals that are left alone hold what they held.
proof fn lemma_locals_still_hold(
    before: Machine,
    after: Machine,
    first: nat,
    types: Seq<WasmType>,
    n: nat,
)
    requires
        locals_hold(before, first, types),
        keeps_locals(before, after, n),
        first + types.len() <= n,
    ensures
        locals_hold(after, first, types),
{
    assert forall|local: nat|
        first <= local < first + types.len() implies #[trigger] after.locals.contains_key(local)
        && type_of_word(after.locals[local]) == types[local - first] by {
        assert(before.locals.contains_key(local));
    }
}

/// Locals that follow each other.
proof fn lemma_locals_hold_both(
    machine: Machine,
    first: nat,
    left: Seq<WasmType>,
    right: Seq<WasmType>,
)
    requires
        locals_hold(machine, first, left),
        locals_hold(machine, first + left.len(), right),
    ensures
        locals_hold(machine, first, left + right),
{
    let both = left + right;
    assert forall|local: nat|
        first <= local < first + both.len() implies #[trigger] machine.locals.contains_key(local)
        && type_of_word(machine.locals[local]) == both[local - first] by {
        let middle = first + left.len();
        if local < middle {
            assert(machine.locals.contains_key(local));
            assert(both[local - first] == left[local - first]);
        } else {
            assert(middle <= local < middle + right.len());
            assert(machine.locals.contains_key(local));
            assert(type_of_word(machine.locals[local]) == right[local - middle]);
            assert(both[local - first] == right[local - middle]);
        }
    }
}

/// Whether the locals below position `n` are the same.
pub open spec fn keeps_locals(before: Machine, after: Machine, n: nat) -> bool {
    forall|local: nat|
        local < n && #[trigger] before.locals.contains_key(local) ==> after.locals.contains_key(
            local,
        ) && after.locals[local] == before.locals[local]
}

/// Whether a local holds an address at which a number of bytes is in memory.
pub open spec fn has_room(machine: Machine, base: nat, address: u32, at: nat, size: nat) -> bool {
    &&& machine.locals.contains_key(base)
    &&& machine.locals[base] == Word::I32(address)
    &&& address + at + size <= machine.memory.len()
}

/// Popping a word into local `n` and writing it.
proof fn lemma_write_indicator(
    machine: Machine,
    rest: Seq<Word>,
    word: Word,
    memory: nat,
    base: nat,
    address: u32,
    at: nat,
    n: nat,
)
    requires
        machine.stack == rest.push(word),
        type_of_word(word) == WasmType::I32,
        has_room(machine, base, address, at, 4),
        base < n,
    ensures
        machine.run(write_indicator(memory, base, at, n)) matches Some(after) && wrote(
            machine,
            after,
            rest,
            (address + at) as nat,
            word_bytes(word),
            n,
        ) && locals_hold(after, n, seq![WasmType::I32]),
{
    broadcast use lemma_run_push;

    let m0 = machine;
    assert(m0.run(no_ops()) == Some(m0));
    let m1 = m0.step(Op::LocalSet(n))->0;
    assert(m1.stack =~= rest);
    let m2 = m1.step(Op::LocalGet(base))->0;
    let m3 = m2.step(Op::LocalGet(n))->0;
    assert(m3.stack.drop_last() =~= m2.stack);
    assert(m2.stack.drop_last() =~= rest);
    let m4 = m3.step(store(memory, WasmType::I32, at))->0;
    assert(m0.run(write_indicator(memory, base, at, n)) == Some(m4));
}

/// Popping two words of a type into locals and writing them next to each other. The top
/// of the stack goes to local `second`, what is under it to local `first`, and `first` is
/// written first.
proof fn lemma_write_pair(
    machine: Machine,
    rest: Seq<Word>,
    low: Word,
    high: Word,
    ty: WasmType,
    memory: nat,
    base: nat,
    address: u32,
    at: nat,
    first: nat,
    second: nat,
    n: nat,
)
    requires
        machine.stack == rest.push(low).push(high),
        type_of_word(low) == ty,
        type_of_word(high) == ty,
        has_room(machine, base, address, at, 2 * width(ty)),
        base < n,
        n <= first,
        n <= second,
        first != second,
    ensures
        machine.run(
            no_ops()
                .push(Op::LocalSet(second))
                .push(Op::LocalSet(first))
                .push(Op::LocalGet(base))
                .push(Op::LocalGet(first))
                .push(store(memory, ty, at))
                .push(Op::LocalGet(base))
                .push(Op::LocalGet(second))
                .push(store(memory, ty, at + width(ty))),
        ) matches Some(after) && wrote(
            machine,
            after,
            rest,
            (address + at) as nat,
            word_bytes(low) + word_bytes(high),
            n,
        ) && after.locals.contains_key(first) && after.locals[first] == low
            && after.locals.contains_key(second) && after.locals[second] == high,
{
    broadcast use lemma_run_push;

    lemma_word_of_word_bytes(low);
    lemma_word_of_word_bytes(high);
    let m0 = machine;
    assert(m0.run(no_ops()) == Some(m0));
    let m1 = m0.step(Op::LocalSet(second))->0;
    assert(m1.stack =~= rest.push(low));
    let m2 = m1.step(Op::LocalSet(first))->0;
    assert(m2.stack =~= rest);
    let m3 = m2.step(Op::LocalGet(base))->0;
    let m4 = m3.step(Op::LocalGet(first))->0;
    assert(m4.stack.drop_last() =~= m3.stack);
    assert(m3.stack.drop_last() =~= rest);
    let m5 = m4.step(store(memory, ty, at))->0;
    assert(m5.stack == rest);
    assert(m5.memory.len() == machine.memory.len());
    let m6 = m5.step(Op::LocalGet(base))->0;
    let m7 = m6.step(Op::LocalGet(second))->0;
    assert(m7.stack.drop_last() =~= m6.stack);
    assert(m6.stack.drop_last() =~= rest);
    let m8 = m7.step(store(memory, ty, at + width(ty)))->0;
    lemma_write_parts(
        machine.memory,
        (address + at) as nat,
        word_bytes(low),
        word_bytes(high),
    );
    assert(m8.stack == rest);
}

/// Two neighbouring locals of one type.
proof fn lemma_pair_of_locals(machine: Machine, ops: Seq<Op>, n: nat, ty: WasmType)
    requires
        machine.run(ops) matches Some(after) && after.locals.contains_key(n)
            && after.locals.contains_key(n + 1) && type_of_word(after.locals[n]) == ty
            && type_of_word(after.locals[n + 1]) == ty,
    ensures
        locals_hold(machine.run(ops)->0, n, seq![ty, ty]),
{
}

/// The instructions that write a value pop it and put its bytes into memory.
pub proof fn lemma_write_value(
    ty: TypeSignature,
    machine: Machine,
    rest: Seq<Word>,
    words: Seq<Word>,
    memory: nat,
    base: nat,
    address: u32,
    at: nat,
    n: nat,
)
    requires
        is_value_type(ty),
        words_have_types(words, wasm_repr(ty)),
        machine.stack == rest + words,
        has_room(machine, base, address, at, type_size(ty)),
        base < n,
    ensures
        machine.run(write_ops(ty, memory, base, at, n)) matches Some(after) && wrote(
            machine,
            after,
            rest,
            (address + at) as nat,
            value_bytes(ty, words),
            n,
        ) && locals_hold(after, n, write_locals(ty)),
    decreases ty, 1int,
{
    lemma_value_bytes_len(ty, words);
    match ty {
        TypeSignature::IntType | TypeSignature::UIntType => {
            assert(type_of_word(words[0]) == wasm_repr(ty)[0]);
            assert(type_of_word(words[1]) == wasm_repr(ty)[1]);
            assert(machine.stack =~= rest.push(words[0]).push(words[1]));
            lemma_write_pair(
                machine,
                rest,
                words[0],
                words[1],
                WasmType::I64,
                memory,
                base,
                address,
                at,
                n + 1,
                n,
                n,
            );
            lemma_pair_of_locals(machine, write_ops(ty, memory, base, at, n), n, WasmType::I64);
        },
        TypeSignature::PrincipalType
        | TypeSignature::CallableType
        | TypeSignature::TraitReferenceType
        | TypeSignature::SequenceType(_) => {
            assert(type_of_word(words[0]) == wasm_repr(ty)[0]);
            assert(type_of_word(words[1]) == wasm_repr(ty)[1]);
            assert(machine.stack =~= rest.push(words[0]).push(words[1]));
            lemma_write_pair(
                machine,
                rest,
                words[0],
                words[1],
                WasmType::I32,
                memory,
                base,
                address,
                at,
                n,
                n + 1,
                n,
            );
            lemma_pair_of_locals(machine, write_ops(ty, memory, base, at, n), n, WasmType::I32);
        },
        TypeSignature::BoolType => {
            assert(type_of_word(words[0]) == wasm_repr(ty)[0]);
            assert(machine.stack =~= rest.push(words[0]));
            lemma_write_indicator(machine, rest, words[0], memory, base, address, at, n);
        },
        TypeSignature::NoType => {
            broadcast use lemma_run_push;

            let m0 = machine;
            assert(m0.run(no_ops()) == Some(m0));
            assert(m0.stack =~= rest.push(words[0]));
            let m1 = m0.step(Op::Drop)->0;
            assert(m1.stack =~= rest);
            let m2 = m1.step(Op::LocalGet(base))->0;
            let m3 = m2.step(Op::I32Const(0))->0;
            assert(m3.stack.drop_last() =~= m2.stack);
            assert(m2.stack.drop_last() =~= rest);
        },
        TypeSignature::OptionalType(_) => {
            lemma_write_optional(
                ty,
                machine,
                rest,
                words,
                memory,
                base,
                address,
                at,
                n,
            );
        },
        TypeSignature::ResponseType(_) => {
            lemma_write_response(
                ty,
                machine,
                rest,
                words,
                memory,
                base,
                address,
                at,
                n,
            );
        },
        TypeSignature::TupleType(tuple) => {
            lemma_write_fields(
                tuple@,
                tuple@.len(),
                machine,
                rest,
                words,
                memory,
                base,
                address,
                at,
                n,
            );
        },
        TypeSignature::ListUnionType => {},
    }
}

/// The same for an optional: its value is written, then its indicator.
proof fn lemma_write_optional(
    ty: TypeSignature,
    machine: Machine,
    rest: Seq<Word>,
    words: Seq<Word>,
    memory: nat,
    base: nat,
    address: u32,
    at: nat,
    n: nat,
)
    requires
        ty is OptionalType,
        is_value_type(ty),
        words_have_types(words, wasm_repr(ty)),
        machine.stack == rest + words,
        has_room(machine, base, address, at, type_size(ty)),
        base < n,
    ensures
        machine.run(write_ops(ty, memory, base, at, n)) matches Some(after) && wrote(
            machine,
            after,
            rest,
            (address + at) as nat,
            value_bytes(ty, words),
            n,
        ) && locals_hold(after, n, write_locals(ty)),
    decreases ty, 0int,
{
    let inner = ty->OptionalType_0;
    lemma_split_optional(words, *inner);
    lemma_word_of_word_bytes(words[0]);
    let value = words.skip(1);
    let under = rest.push(words[0]);
    assert(machine.stack =~= under + value);
    lemma_value_bytes_len(*inner, value);
    lemma_write_value(*inner, machine, under, value, memory, base, address, at + 4, n);
    let next = machine.run(write_ops(*inner, memory, base, at + 4, n))->0;
    let local = n + write_locals(*inner).len();
    lemma_write_indicator(next, rest, words[0], memory, base, address, at, local);
    lemma_run_both(
        machine,
        write_ops(*inner, memory, base, at + 4, n),
        write_indicator(memory, base, at, local),
    );
    lemma_write_parts(
        machine.memory,
        (address + at) as nat,
        word_bytes(words[0]),
        value_bytes(*inner, value),
    );
    let after = next.run(write_indicator(memory, base, at, local))->0;
    lemma_locals_still_hold(next, after, n, write_locals(*inner), local);
    lemma_locals_hold_both(after, n, write_locals(*inner), seq![WasmType::I32]);
}

/// The same for a response: its `err` value is written, then its `ok` value, then its
/// indicator.
proof fn lemma_write_response(
    ty: TypeSignature,
    machine: Machine,
    rest: Seq<Word>,
    words: Seq<Word>,
    memory: nat,
    base: nat,
    address: u32,
    at: nat,
    n: nat,
)
    requires
        ty is ResponseType,
        is_value_type(ty),
        words_have_types(words, wasm_repr(ty)),
        machine.stack == rest + words,
        has_room(machine, base, address, at, type_size(ty)),
        base < n,
    ensures
        machine.run(write_ops(ty, memory, base, at, n)) matches Some(after) && wrote(
            machine,
            after,
            rest,
            (address + at) as nat,
            value_bytes(ty, words),
            n,
        ) && locals_hold(after, n, write_locals(ty)),
    decreases ty, 0int,
{
    let inner = ty->ResponseType_0;
    let k = wasm_repr(inner.0).len() as int;
    lemma_split_response(words, inner.0, inner.1);
    lemma_word_of_word_bytes(words[0]);
    let ok_words = words.subrange(1, 1 + k);
    let err_words = words.skip(1 + k);
    let first = rest.push(words[0]) + ok_words;
    let second = rest.push(words[0]);
    let n1 = n + write_locals(inner.1).len();
    let n2 = n1 + write_locals(inner.0).len();
    let err_at = at + 4 + type_size(inner.0);
    let err_ops = write_ops(inner.1, memory, base, err_at, n);
    let ok_ops = write_ops(inner.0, memory, base, at + 4, n1);
    let ok_bytes = value_bytes(inner.0, ok_words);
    let err_bytes = value_bytes(inner.1, err_words);
    lemma_value_bytes_len(inner.0, ok_words);
    lemma_value_bytes_len(inner.1, err_words);
    assert(machine.stack =~= first + err_words);
    lemma_write_value(
        inner.1,
        machine,
        first,
        err_words,
        memory,
        base,
        address,
        err_at,
        n,
    );
    let m1 = machine.run(err_ops)->0;
    lemma_write_value(
        inner.0,
        m1,
        second,
        ok_words,
        memory,
        base,
        address,
        at + 4,
        n1,
    );
    let m2 = m1.run(ok_ops)->0;
    lemma_write_indicator(m2, rest, words[0], memory, base, address, at, n2);
    lemma_run_both(machine, err_ops, ok_ops);
    lemma_run_both(machine, err_ops + ok_ops, write_indicator(memory, base, at, n2));
    lemma_write_parts(machine.memory, (address + at + 4) as nat, ok_bytes, err_bytes);
    lemma_write_parts(
        machine.memory,
        (address + at) as nat,
        word_bytes(words[0]),
        ok_bytes + err_bytes,
    );
    assert(word_bytes(words[0]) + ok_bytes + err_bytes =~= word_bytes(words[0]) + (ok_bytes
        + err_bytes));
    let after = m2.run(write_indicator(memory, base, at, n2))->0;
    let err_locals = write_locals(inner.1);
    let ok_locals = write_locals(inner.0);
    lemma_locals_still_hold(m1, m2, n, err_locals, n1);
    lemma_locals_hold_both(m2, n, err_locals, ok_locals);
    lemma_locals_still_hold(m2, after, n, err_locals + ok_locals, n2);
    lemma_locals_hold_both(after, n, err_locals + ok_locals, seq![WasmType::I32]);
}

/// The instructions that write fields pop them and put their bytes into memory.
proof fn lemma_write_fields(
    fields: Seq<(String, TypeSignature)>,
    m: nat,
    machine: Machine,
    rest: Seq<Word>,
    words: Seq<Word>,
    memory: nat,
    base: nat,
    address: u32,
    at: nat,
    n: nat,
)
    requires
        m <= fields.len(),
        are_value_types(fields, m),
        words_have_types(words, fields_repr(fields, m)),
        machine.stack == rest + words,
        has_room(machine, base, address, at, fields_size(fields, m)),
        base < n,
    ensures
        machine.run(fields_write_ops(fields, m, memory, base, at, n)) matches Some(after) && wrote(
            machine,
            after,
            rest,
            (address + at) as nat,
            fields_bytes(fields, m, words),
            n,
        ) && locals_hold(after, n, fields_write_locals(fields, m)),
    decreases fields, m,
{
    if m == 0 {
        assert(rest + words =~= rest);
        assert(write_at(machine.memory, (address + at) as nat, Seq::empty()) =~= machine.memory);
    } else {
        let ty = fields[m - 1].1;
        let before = fields_repr(fields, (m - 1) as nat);
        let k = before.len() as int;
        lemma_split_types(words, before, wasm_repr(ty));
        let field_at = at + fields_size(fields, (m - 1) as nat);
        let field_ops = write_ops(ty, memory, base, field_at, n);
        let n1 = n + write_locals(ty).len();
        let other_ops = fields_write_ops(fields, (m - 1) as nat, memory, base, at, n1);
        assert(machine.stack =~= (rest + words.take(k)) + words.skip(k));
        lemma_value_bytes_len(ty, words.skip(k));
        lemma_fields_bytes_len(fields, (m - 1) as nat, words.take(k));
        lemma_write_value(
            ty,
            machine,
            rest + words.take(k),
            words.skip(k),
            memory,
            base,
            address,
            field_at,
            n,
        );
        let m1 = machine.run(field_ops)->0;
        lemma_write_fields(
            fields,
            (m - 1) as nat,
            m1,
            rest,
            words.take(k),
            memory,
            base,
            address,
            at,
            n1,
        );
        lemma_run_both(machine, field_ops, other_ops);
        lemma_write_parts(
            machine.memory,
            (address + at) as nat,
            fields_bytes(fields, (m - 1) as nat, words.take(k)),
            value_bytes(ty, words.skip(k)),
        );
        let after = m1.run(other_ops)->0;
        lemma_locals_still_hold(m1, after, n, write_locals(ty), n1);
        lemma_locals_hold_both(
            after,
            n,
            write_locals(ty),
            fields_write_locals(fields, (m - 1) as nat),
        );
    }
}

/// Whether the bytes are in memory from an address on.
pub open spec fn holds_bytes(memory: Seq<u8>, address: nat, bytes: Seq<u8>) -> bool {
    &&& address + bytes.len() <= memory.len()
    &&& memory.subrange(address as int, (address + bytes.len()) as int) == bytes
}

/// Bytes that were written are there.
proof fn lemma_holds_what_was_written(memory: Seq<u8>, address: nat, bytes: Seq<u8>)
    requires
        address + bytes.len() <= memory.len(),
    ensures
        holds_bytes(write_at(memory, address, bytes), address, bytes),
{
    assert(write_at(memory, address, bytes).subrange(
        address as int,
        (address + bytes.len()) as int,
    ) =~= bytes);
}

/// The parts of bytes that are in memory are in memory too.
proof fn lemma_holds_parts(memory: Seq<u8>, address: nat, left: Seq<u8>, right: Seq<u8>)
    requires
        holds_bytes(memory, address, left + right),
    ensures
        holds_bytes(memory, address, left),
        holds_bytes(memory, address + left.len(), right),
{
    let whole = left + right;
    let all = memory.subrange(address as int, (address + whole.len()) as int);
    assert(all.take(left.len() as int) =~= left);
    assert(all.skip(left.len() as int) =~= right);
    assert(all.take(left.len() as int) =~= memory.subrange(
        address as int,
        (address + left.len()) as int,
    ));
    assert(all.skip(left.len() as int) =~= memory.subrange(
        (address + left.len()) as int,
        (address + left.len() + right.len()) as int,
    ));
}

/// The machine with more words on the stack.
pub open spec fn with_words(machine: Machine, words: Seq<Word>) -> Machine {
    Machine { stack: machine.stack + words, ..machine }
}

/// Reading a word that is in memory.
proof fn lemma_read_slot(
    machine: Machine,
    word: Word,
    memory: nat,
    base: nat,
    address: u32,
    at: nat,
)
    requires
        machine.locals.contains_key(base),
        machine.locals[base] == Word::I32(address),
        holds_bytes(machine.memory, (address + at) as nat, word_bytes(word)),
    ensures
        machine.run(read_slot(memory, base, type_of_word(word), at)) == Some(
            with_words(machine, seq![word]),
        ),
{
    broadcast use lemma_run_push;

    let ty = type_of_word(word);
    lemma_word_of_word_bytes(word);
    assert(machine.run(no_ops()) == Some(machine));
    let m1 = machine.step(Op::LocalGet(base))->0;
    let m2 = m1.step(load(memory, ty, at))->0;
    assert(m1.stack.drop_last() =~= machine.stack);
    assert(m2.stack =~= machine.stack + seq![word]);
    assert(read_slot(memory, base, ty, at) =~= no_ops().push(Op::LocalGet(base)).push(
        load(memory, ty, at),
    ));
    assert(m2 == with_words(machine, seq![word]));
}

/// Pushing words in two steps.
proof fn lemma_with_words_twice(machine: Machine, left: Seq<Word>, right: Seq<Word>)
    ensures
        with_words(with_words(machine, left), right) == with_words(machine, left + right),
{
    assert(machine.stack + left + right =~= machine.stack + (left + right));
}

/// Reading two words of the same type that are in memory one after the other.
proof fn lemma_read_pair(
    machine: Machine,
    words: Seq<Word>,
    slot: WasmType,
    memory: nat,
    base: nat,
    address: u32,
    at: nat,
)
    requires
        words.len() == 2,
        type_of_word(words[0]) == slot,
        type_of_word(words[1]) == slot,
        machine.locals.contains_key(base),
        machine.locals[base] == Word::I32(address),
        holds_bytes(
            machine.memory,
            (address + at) as nat,
            word_bytes(words[0]) + word_bytes(words[1]),
        ),
    ensures
        machine.run(
            read_slot(memory, base, slot, at) + read_slot(memory, base, slot, at + width(slot)),
        ) == Some(with_words(machine, words)),
{
    let a = (address + at) as nat;
    lemma_word_of_word_bytes(words[0]);
    lemma_holds_parts(machine.memory, a, word_bytes(words[0]), word_bytes(words[1]));
    lemma_read_slot(machine, words[0], memory, base, address, at);
    let m1 = with_words(machine, seq![words[0]]);
    lemma_read_slot(m1, words[1], memory, base, address, at + width(slot));
    lemma_run_both(
        machine,
        read_slot(memory, base, slot, at),
        read_slot(memory, base, slot, at + width(slot)),
    );
    lemma_with_words_twice(machine, seq![words[0]], seq![words[1]]);
    assert(words =~= seq![words[0]] + seq![words[1]]);
}

/// The instructions that read a value push it, where its bytes are in memory.
#[verifier::rlimit(40)]
pub proof fn lemma_read_value(
    ty: TypeSignature,
    machine: Machine,
    words: Seq<Word>,
    memory: nat,
    base: nat,
    address: u32,
    at: nat,
)
    requires
        is_value_type(ty),
        words_have_types(words, wasm_repr(ty)),
        machine.locals.contains_key(base),
        machine.locals[base] == Word::I32(address),
        holds_bytes(machine.memory, (address + at) as nat, value_bytes(ty, words)),
    ensures
        machine.run(read_ops(ty, memory, base, at)) == Some(
            with_words(machine, settled(ty, words)),
        ),
    decreases ty, 0int,
{
    let a = (address + at) as nat;
    match ty {
        TypeSignature::IntType
        | TypeSignature::UIntType
        | TypeSignature::PrincipalType
        | TypeSignature::CallableType
        | TypeSignature::TraitReferenceType
        | TypeSignature::SequenceType(_) => {
            assert(type_of_word(words[0]) == wasm_repr(ty)[0]);
            assert(type_of_word(words[1]) == wasm_repr(ty)[1]);
            lemma_read_pair(machine, words, wasm_repr(ty)[0], memory, base, address, at);
        },
        TypeSignature::BoolType => {
            assert(type_of_word(words[0]) == wasm_repr(ty)[0]);
            lemma_read_slot(machine, words[0], memory, base, address, at);
            assert(words =~= seq![words[0]]);
        },
        TypeSignature::NoType => {
            broadcast use lemma_run_push;

            assert(machine.run(no_ops()) == Some(machine));
            let m1 = machine.step(Op::I32Const(0))->0;
            assert(m1.stack =~= machine.stack + seq![Word::I32(0)]);
            assert(seq![Op::I32Const(0)] =~= no_ops().push(Op::I32Const(0)));
        },
        TypeSignature::OptionalType(inner) => {
            lemma_split_optional(words, *inner);
            lemma_word_of_word_bytes(words[0]);
            let value = words.skip(1);
            lemma_holds_parts(
                machine.memory,
                a,
                word_bytes(words[0]),
                value_bytes(*inner, value),
            );
            lemma_read_slot(machine, words[0], memory, base, address, at);
            let m1 = with_words(machine, seq![words[0]]);
            lemma_read_value(*inner, m1, value, memory, base, address, at + 4);
            lemma_run_both(
                machine,
                read_slot(memory, base, WasmType::I32, at),
                read_ops(*inner, memory, base, at + 4),
            );
            lemma_with_words_twice(machine, seq![words[0]], settled(*inner, value));
        },
        TypeSignature::ResponseType(inner) => {
            let k = wasm_repr(inner.0).len() as int;
            lemma_split_response(words, inner.0, inner.1);
            lemma_word_of_word_bytes(words[0]);
            let ok_words = words.subrange(1, 1 + k);
            let err_words = words.skip(1 + k);
            let ok_bytes = value_bytes(inner.0, ok_words);
            let err_bytes = value_bytes(inner.1, err_words);
            lemma_value_bytes_len(inner.0, ok_words);
            lemma_holds_parts(machine.memory, a, word_bytes(words[0]) + ok_bytes, err_bytes);
            lemma_holds_parts(machine.memory, a, word_bytes(words[0]), ok_bytes);
            let slot_ops = read_slot(memory, base, WasmType::I32, at);
            let ok_ops = read_ops(inner.0, memory, base, at + 4);
            let err_ops = read_ops(inner.1, memory, base, at + 4 + type_size(inner.0));
            lemma_read_slot(machine, words[0], memory, base, address, at);
            let m1 = with_words(machine, seq![words[0]]);
            lemma_read_value(inner.0, m1, ok_words, memory, base, address, at + 4);
            let m2 = with_words(m1, settled(inner.0, ok_words));
            lemma_read_value(
                inner.1,
                m2,
                err_words,
                memory,
                base,
                address,
                at + 4 + type_size(inner.0),
            );
            lemma_run_both(machine, slot_ops, ok_ops);
            lemma_run_both(machine, slot_ops + ok_ops, err_ops);
            lemma_with_words_twice(machine, seq![words[0]], settled(inner.0, ok_words));
            lemma_with_words_twice(
                machine,
                seq![words[0]] + settled(inner.0, ok_words),
                settled(inner.1, err_words),
            );
        },
        TypeSignature::TupleType(tuple) => {
            lemma_read_fields(
                tuple@,
                tuple@.len(),
                machine,
                words,
                memory,
                base,
                address,
                at,
            );
        },
        TypeSignature::ListUnionType => {},
    }
}

/// The instructions that read fields push them, where their bytes are in memory.
proof fn lemma_read_fields(
    fields: Seq<(String, TypeSignature)>,
    m: nat,
    machine: Machine,
    words: Seq<Word>,
    memory: nat,
    base: nat,
    address: u32,
    at: nat,
)
    requires
        m <= fields.len(),
        are_value_types(fields, m),
        words_have_types(words, fields_repr(fields, m)),
        machine.locals.contains_key(base),
        machine.locals[base] == Word::I32(address),
        holds_bytes(machine.memory, (address + at) as nat, fields_bytes(fields, m, words)),
    ensures
        machine.run(fields_read_ops(fields, m, memory, base, at)) == Some(
            with_words(machine, fields_settled(fields, m, words)),
        ),
    decreases fields, m,
{
    if m == 0 {
        assert(machine.stack + Seq::<Word>::empty() =~= machine.stack);
    } else {
        let ty = fields[m - 1].1;
        let before = fields_repr(fields, (m - 1) as nat);
        let k = before.len() as int;
        lemma_split_types(words, before, wasm_repr(ty));
        let field_at = at + fields_size(fields, (m - 1) as nat);
        let other_bytes = fields_bytes(fields, (m - 1) as nat, words.take(k));
        lemma_fields_bytes_len(fields, (m - 1) as nat, words.take(k));
        lemma_holds_parts(
            machine.memory,
            (address + at) as nat,
            other_bytes,
            value_bytes(ty, words.skip(k)),
        );
        lemma_read_fields(
            fields,
            (m - 1) as nat,
            machine,
            words.take(k),
            memory,
            base,
            address,
            at,
        );
        let others = fields_settled(fields, (m - 1) as nat, words.take(k));
        let m1 = with_words(machine, others);
        lemma_read_value(ty, m1, words.skip(k), memory, base, address, field_at);
        lemma_run_both(
            machine,
            fields_read_ops(fields, (m - 1) as nat, memory, base, at),
            read_ops(ty, memory, base, field_at),
        );
        lemma_with_words_twice(machine, others, settled(ty, words.skip(k)));
    }
}

/// What was written to memory is read back: the instructions that write a value, and then
/// those that read a value of the same type from the same place, leave the words that were
/// there, but for the placeholder of a value that is never there, which becomes zero.
/// Nothing else in memory changes, nor any local that was there before, and the locals that
/// are added for this hold words of the types that they were added with.
pub proof fn law_read_after_write(
    ty: TypeSignature,
    machine: Machine,
    rest: Seq<Word>,
    words: Seq<Word>,
    memory: nat,
    base: nat,
    address: u32,
    at: nat,
    n: nat,
)
    requires
        is_value_type(ty),
        words_have_types(words, wasm_repr(ty)),
        machine.stack == rest + words,
        has_room(machine, base, address, at, type_size(ty)),
        base < n,
    ensures
        machine.run(
            write_ops(ty, memory, base, at, n) + read_ops(ty, memory, base, at),
        ) matches Some(after) && wrote(
            machine,
            after,
            rest + settled(ty, words),
            (address + at) as nat,
            value_bytes(ty, words),
            n,
        ) && locals_hold(after, n, write_locals(ty)),
        value_bytes(ty, words).len() == type_size(ty),
{
    lemma_value_bytes_len(ty, words);
    lemma_write_value(ty, machine, rest, words, memory, base, address, at, n);
    let written = machine.run(write_ops(ty, memory, base, at, n))->0;
    lemma_holds_what_was_written(
        machine.memory,
        (address + at) as nat,
        value_bytes(ty, words),
    );
    lemma_read_value(ty, written, words, memory, base, address, at);
    lemma_run_both(
        machine,
        write_ops(ty, memory, base, at, n),
        read_ops(ty, memory, base, at),
    );
}

/// Whether every part of a type is one whose values can be there.
pub open spec fn has_no_placeholder(ty: TypeSignature) -> bool
    decreases ty, 0int,
{
    match ty {
        TypeSignature::NoType => false,
        TypeSignature::OptionalType(inner) => has_no_placeholder(*inner),
        TypeSignature::ResponseType(inner) => has_no_placeholder(inner.0) && has_no_placeholder(
            inner.1,
        ),
        TypeSignature::TupleType(tuple) => fields_have_no_placeholder(
            tuple@,
            tuple@.len(),
        ),
        _ => true,
    }
}

/// Whether every part of the first `n` fields is one whose values can be there.
pub open spec fn fields_have_no_placeholder(fields: Seq<(String, TypeSignature)>, n: nat) -> bool
    decreases fields, n,
{
    n == 0 || n > fields.len() || (fields_have_no_placeholder(fields, (n - 1) as nat)
        && has_no_placeholder(fields[n - 1].1))
}

/// A value all parts of which can be there is read back as it was written.
pub proof fn law_settled_is_same(ty: TypeSignature, words: Seq<Word>)
    requires
        has_no_placeholder(ty),
        words_have_types(words, wasm_repr(ty)),
    ensures
        settled(ty, words) == words,
    decreases ty, 0int,
{
    match ty {
        TypeSignature::OptionalType(inner) => {
            lemma_split_optional(words, *inner);
            law_settled_is_same(*inner, words.skip(1));
        },
        TypeSignature::ResponseType(inner) => {
            let n = wasm_repr(inner.0).len() as int;
            lemma_split_response(words, inner.0, inner.1);
            law_settled_is_same(inner.0, words.subrange(1, 1 + n));
            law_settled_is_same(inner.1, words.skip(1 + n));
        },
        TypeSignature::TupleType(tuple) => {
            lemma_fields_settled_are_same(tuple@, tuple@.len(), words);
        },
        _ => {},
    }
}

proof fn lemma_fields_settled_are_same(
    fields: Seq<(String, TypeSignature)>,
    n: nat,
    words: Seq<Word>,
)
    requires
        n <= fields.len(),
        fields_have_no_placeholder(fields, n),
        words_have_types(words, fields_repr(fields, n)),
    ensures
        fields_settled(fields, n, words) == words,
    decreases fields, n,
{
    if n == 0 {
        assert(words =~= Seq::empty());
    } else {
        let before = fields_repr(fields, (n - 1) as nat);
        lemma_split_types(words, before, wasm_repr(fields[n - 1].1));
        lemma_fields_settled_are_same(
            fields,
            (n - 1) as nat,
            words.take(before.len() as int),
        );
        law_settled_is_same(fields[n - 1].1, words.skip(before.len() as int));
    }
}

/// The number of bytes of the words that have the given types.
pub open spec fn total_width(types: Seq<WasmType>) -> nat
    decreases types.len(),
{
    if types.len() == 0 {
        0
    } else {
        total_width(types.drop_last()) + width(types.last())
    }
}

proof fn lemma_total_width_of_both(left: Seq<WasmType>, right: Seq<WasmType>)
    ensures
        total_width(left + right) == total_width(left) + total_width(right),
    decreases right.len(),
{
    if right.len() == 0 {
        assert(left + right =~= left);
    } else {
        lemma_total_width_of_both(left, right.drop_last());
        assert((left + right).drop_last() =~= left + right.drop_last());
    }
}

proof fn lemma_total_width_start()
    ensures
        total_width(seq![WasmType::I32]) == 4,
        total_width(seq![WasmType::I32, WasmType::I32]) == 8,
        total_width(seq![WasmType::I64, WasmType::I64]) == 16,
{
    reveal_with_fuel(total_width, 2);
    lemma_total_width_of_both(seq![WasmType::I32], seq![WasmType::I32]);
    lemma_total_width_of_both(seq![WasmType::I64], seq![WasmType::I64]);
    assert(seq![WasmType::I32, WasmType::I32] =~= seq![WasmType::I32] + seq![WasmType::I32]);
    assert(seq![WasmType::I64, WasmType::I64] =~= seq![WasmType::I64] + seq![WasmType::I64]);
    assert(seq![WasmType::I32].drop_last() =~= Seq::empty());
    assert(seq![WasmType::I64].drop_last() =~= Seq::empty());
}

/// A value takes as many bytes in memory as the words that represent it on the stack.
pub proof fn law_size_is_that_of_the_words(ty: TypeSignature)
    requires
        is_value_type(ty),
    ensures
        type_size(ty) == total_width(wasm_repr(ty)),
    decreases ty, 0int,
{
    lemma_total_width_start();
    match ty {
        TypeSignature::OptionalType(inner) => {
            law_size_is_that_of_the_words(*inner);
            lemma_total_width_of_both(seq![WasmType::I32], wasm_repr(*inner));
        },
        TypeSignature::ResponseType(inner) => {
            law_size_is_that_of_the_words(inner.0);
            law_size_is_that_of_the_words(inner.1);
            lemma_total_width_of_both(seq![WasmType::I32], wasm_repr(inner.0));
            lemma_total_width_of_both(
                seq![WasmType::I32] + wasm_repr(inner.0),
                wasm_repr(inner.1),
            );
        },
        TypeSignature::TupleType(tuple) => {
            lemma_fields_size_is_that_of_the_words(tuple@, tuple@.len());
        },
        _ => {},
    }
}

proof fn lemma_fields_size_is_that_of_the_words(fields: Seq<(String, TypeSignature)>, n: nat)
    requires
        n <= fields.len(),
        are_value_types(fields, n),
    ensures
        fields_size(fields, n) == total_width(fields_repr(fields, n)),
    decreases fields, n,
{
    if n > 0 {
        lemma_fields_size_is_that_of_the_words(fields, (n - 1) as nat);
        law_size_is_that_of_the_words(fields[n - 1].1);
        lemma_total_width_of_both(
            fields_repr(fields, (n - 1) as nat),
            wasm_repr(fields[n - 1].1),
        );
    }
}

} // verus!

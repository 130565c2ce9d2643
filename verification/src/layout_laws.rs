//! What holds of how values are laid out, on the stack and in memory, and of where functions
//! and globals are found.
use std::rc::Rc;
use vstd::prelude::*;
use vstd::seq_lib::lemma_flatten_concat;

use crate::analysis::SymbolicExpression;
use crate::call_laws::lies_in_memory;
use crate::calls::{copy_ops, copy_result_effect, reserve_ops};
use crate::generator::{element_of, first_memory_index, global_named};
use crate::ir::{first_named, no_ops, CodeView, FunctionView, GlobalView, Op};
use crate::layout::{
    element_type, fields_in_memory_size, fields_repr, fields_size, in_memory_size, type_size,
    wasm_repr,
};
use crate::machine::{width, word_bytes, Word};
use crate::memory::{
    call_stack_size, fields_read_ops, fields_write_ops, read_ops, write_locals, write_ops,
};
use crate::memory_laws::{
    fields_bytes, fields_settled, lemma_split_optional, lemma_split_response, lemma_split_types,
    settled, value_bytes, words_have_types,
};
use crate::progress::Progress;
use crate::statement_laws::stretch;
use crate::types::{
    are_value_types, is_value_type, pointee, SequenceSubtype, StringSubtype, TupleTypeSignature,
    TypeSignature,
};
use crate::variables::constant_effect;

verus! {

/// The bytes of words, one after the other.
pub open spec fn bytes_of_words(words: Seq<Word>) -> Seq<u8> {
    words.map_values(|word: Word| word_bytes(word)).flatten()
}

/// The bytes of words that follow each other.
proof fn lemma_bytes_of_both(left: Seq<Word>, right: Seq<Word>)
    ensures
        bytes_of_words(left + right) == bytes_of_words(left) + bytes_of_words(right),
{
    let own = |word: Word| word_bytes(word);
    assert((left + right).map_values(own) =~= left.map_values(own) + right.map_values(own));
    lemma_flatten_concat(left.map_values(own), right.map_values(own));
}

/// The bytes of one word.
proof fn lemma_bytes_of_one(word: Word)
    ensures
        bytes_of_words(seq![word]) == word_bytes(word),
{
    let all = seq![word].map_values(|word: Word| word_bytes(word));
    assert(all =~= seq![word_bytes(word)]);
    all.lemma_flatten_one_element();
}

/// In memory a value is the bytes of its words in the order that they have on the stack, the
/// lowest first.
pub proof fn law_value_is_its_words_in_order(ty: TypeSignature, words: Seq<Word>)
    requires
        is_value_type(ty),
        words_have_types(words, wasm_repr(ty)),
    ensures
        value_bytes(ty, words) == bytes_of_words(settled(ty, words)),
    decreases ty, 0int,
{
    match ty {
        TypeSignature::NoType => lemma_bytes_of_one(Word::I32(0)),
        TypeSignature::BoolType => {
            assert(words =~= seq![words[0]]);
            lemma_bytes_of_one(words[0]);
        },
        TypeSignature::OptionalType(inner) => {
            lemma_split_optional(words, *inner);
            law_value_is_its_words_in_order(*inner, words.skip(1));
            lemma_bytes_of_one(words[0]);
            lemma_bytes_of_both(seq![words[0]], settled(*inner, words.skip(1)));
        },
        TypeSignature::ResponseType(inner) => {
            let n = wasm_repr(inner.0).len() as int;
            lemma_split_response(words, inner.0, inner.1);
            let ok = words.subrange(1, 1 + n);
            let err = words.skip(1 + n);
            law_value_is_its_words_in_order(inner.0, ok);
            law_value_is_its_words_in_order(inner.1, err);
            lemma_bytes_of_one(words[0]);
            lemma_bytes_of_both(seq![words[0]], settled(inner.0, ok));
            lemma_bytes_of_both(seq![words[0]] + settled(inner.0, ok), settled(inner.1, err));
        },
        TypeSignature::TupleType(tuple) => {
            lemma_fields_are_their_words(tuple@, tuple@.len(), words);
        },
        _ => {
            assert(words =~= seq![words[0]] + seq![words[1]]);
            lemma_bytes_of_one(words[0]);
            lemma_bytes_of_one(words[1]);
            lemma_bytes_of_both(seq![words[0]], seq![words[1]]);
        },
    }
}

proof fn lemma_fields_are_their_words(
    fields: Seq<(String, TypeSignature)>,
    n: nat,
    words: Seq<Word>,
)
    requires
        n <= fields.len(),
        are_value_types(fields, n),
        words_have_types(words, fields_repr(fields, n)),
    ensures
        fields_bytes(fields, n, words) == bytes_of_words(fields_settled(fields, n, words)),
    decreases fields, n,
{
    if n == 0 {
        assert(Seq::<Word>::empty().map_values(|word: Word| word_bytes(word)) =~= Seq::empty());
    } else {
        let before = fields_repr(fields, (n - 1) as nat);
        let ty = fields[n - 1].1;
        lemma_split_types(words, before, wasm_repr(ty));
        let first = words.take(before.len() as int);
        let last = words.skip(before.len() as int);
        lemma_fields_are_their_words(fields, (n - 1) as nat, first);
        law_value_is_its_words_in_order(ty, last);
        lemma_bytes_of_both(fields_settled(fields, (n - 1) as nat, first), settled(ty, last));
    }
}

/// A tuple is its fields, one after the other in their order.
pub proof fn law_tuple_is_its_fields_in_order(tuple: TupleTypeSignature)
    ensures
        wasm_repr(TypeSignature::TupleType(tuple)) == tuple@.map_values(
            |field: (String, TypeSignature)| wasm_repr(field.1),
        ).flatten(),
{
    lemma_fields_in_order(tuple@, tuple@.len());
    assert(tuple@.take(tuple@.len() as int) =~= tuple@);
}

proof fn lemma_fields_in_order(fields: Seq<(String, TypeSignature)>, n: nat)
    requires
        n <= fields.len(),
    ensures
        fields_repr(fields, n) == fields.take(n as int).map_values(
            |field: (String, TypeSignature)| wasm_repr(field.1),
        ).flatten(),
    decreases n,
{
    let own = |field: (String, TypeSignature)| wasm_repr(field.1);
    let all = fields.take(n as int).map_values(own);
    if n == 0 {
        assert(all =~= Seq::empty());
    } else {
        lemma_fields_in_order(fields, (n - 1) as nat);
        let before = fields.take(n - 1).map_values(own);
        assert(all =~= before.push(wasm_repr(fields[n - 1].1)));
        before.lemma_flatten_push(wasm_repr(fields[n - 1].1));
    }
}

/// The number of bytes that what a value refers to takes in memory at most: the characters or
/// bytes of a sequence, the elements of a list and what these refer to, and the bytes of a
/// principal.
pub open spec fn most_contents(ty: TypeSignature) -> nat
    decreases ty, 0int,
{
    match ty {
        TypeSignature::PrincipalType
        | TypeSignature::CallableType
        | TypeSignature::TraitReferenceType => 1 + 20 + 1 + 128,
        TypeSignature::SequenceType(SequenceSubtype::BufferType(length)) => length as nat,
        TypeSignature::SequenceType(SequenceSubtype::StringType(StringSubtype::ASCII(length))) =>
            length as nat,
        TypeSignature::SequenceType(SequenceSubtype::StringType(StringSubtype::UTF8(length))) => 4
            * length as nat,
        TypeSignature::SequenceType(SequenceSubtype::ListType(list)) => list.max_len as nat * (
        type_size(*list.entry_type) + most_contents(*list.entry_type)),
        TypeSignature::OptionalType(inner) => most_contents(*inner),
        TypeSignature::ResponseType(inner) => most_contents(inner.0) + most_contents(inner.1),
        TypeSignature::TupleType(tuple) => fields_most_contents(tuple@, tuple@.len()),
        _ => 0,
    }
}

/// The same for the first `n` fields of a tuple.
pub open spec fn fields_most_contents(fields: Seq<(String, TypeSignature)>, n: nat) -> nat
    decreases fields, n,
{
    if n == 0 || n > fields.len() {
        0
    } else {
        fields_most_contents(fields, (n - 1) as nat) + most_contents(fields[n - 1].1)
    }
}

/// The size in memory of a value with its representation is just enough for the words of the
/// value and all that it refers to.
pub proof fn law_size_in_memory_is_enough(ty: TypeSignature)
    ensures
        in_memory_size(ty, true) == type_size(ty) + most_contents(ty),
    decreases ty, 0int,
{
    match ty {
        TypeSignature::SequenceType(SequenceSubtype::ListType(list)) => {
            law_size_in_memory_is_enough(pointee(list.entry_type));
        },
        TypeSignature::OptionalType(inner) => law_size_in_memory_is_enough(*inner),
        TypeSignature::ResponseType(inner) => {
            law_size_in_memory_is_enough(inner.0);
            law_size_in_memory_is_enough(inner.1);
        },
        TypeSignature::TupleType(tuple) => {
            lemma_fields_size_in_memory(tuple@, tuple@.len());
        },
        _ => {},
    }
}

proof fn lemma_fields_size_in_memory(fields: Seq<(String, TypeSignature)>, n: nat)
    ensures
        fields_in_memory_size(fields, n, true) == fields_size(fields, n) + fields_most_contents(
            fields,
            n,
        ),
    decreases fields, n,
{
    if 0 < n <= fields.len() {
        lemma_fields_size_in_memory(fields, (n - 1) as nat);
        law_size_in_memory_is_enough(fields[n - 1].1);
    }
}

/// Whether a value of a type refers to nothing in memory.
pub open spec fn refers_to_nothing(ty: TypeSignature) -> bool
    decreases ty, 0int,
{
    match ty {
        TypeSignature::OptionalType(inner) => refers_to_nothing(*inner),
        TypeSignature::ResponseType(inner) => refers_to_nothing(inner.0) && refers_to_nothing(
            inner.1,
        ),
        TypeSignature::TupleType(tuple) => fields_refer_to_nothing(tuple@, tuple@.len()),
        _ => !lies_in_memory(ty),
    }
}

/// The same for the first `n` fields of a tuple.
pub open spec fn fields_refer_to_nothing(fields: Seq<(String, TypeSignature)>, n: nat) -> bool
    decreases fields, n,
{
    n == 0 || n > fields.len() || (fields_refer_to_nothing(fields, (n - 1) as nat)
        && refers_to_nothing(fields[n - 1].1))
}

/// The size in memory of a value without its representation is that of its contents: of a
/// list, the words of its elements; of another value that lies in memory, all that it refers
/// to; and of a value that refers to nothing, its words.
pub proof fn law_size_without_representation(ty: TypeSignature)
    ensures
        refers_to_nothing(ty) ==> in_memory_size(ty, false) == type_size(ty),
        in_memory_size(ty, false) <= in_memory_size(ty, true),
        ty matches TypeSignature::SequenceType(SequenceSubtype::ListType(list))
            ==> in_memory_size(ty, false) == list.max_len as nat * type_size(*list.entry_type),
        lies_in_memory(ty) && !(ty matches TypeSignature::SequenceType(
            SequenceSubtype::ListType(_),
        )) ==> in_memory_size(ty, false) == most_contents(ty),
    decreases ty, 0int,
{
    match ty {
        TypeSignature::SequenceType(SequenceSubtype::ListType(list)) => {
            law_size_in_memory_is_enough(pointee(list.entry_type));
            let count = list.max_len as int;
            let less = type_size(pointee(list.entry_type)) as int;
            let more = in_memory_size(pointee(list.entry_type), true) as int;
            assert(count * less <= count * more) by (nonlinear_arith)
                requires
                    0 <= count,
                    less <= more,
            ;
        },
        TypeSignature::OptionalType(inner) => law_size_without_representation(*inner),
        TypeSignature::ResponseType(inner) => {
            law_size_without_representation(inner.0);
            law_size_without_representation(inner.1);
        },
        TypeSignature::TupleType(tuple) => {
            lemma_fields_without_representation(tuple@, tuple@.len());
        },
        _ => {},
    }
}

proof fn lemma_fields_without_representation(fields: Seq<(String, TypeSignature)>, n: nat)
    ensures
        fields_refer_to_nothing(fields, n) ==> fields_in_memory_size(fields, n, false)
            == fields_size(fields, n),
        fields_in_memory_size(fields, n, false) <= fields_in_memory_size(fields, n, true),
    decreases fields, n,
{
    if 0 < n <= fields.len() {
        lemma_fields_without_representation(fields, (n - 1) as nat);
        law_size_without_representation(fields[n - 1].1);
    }
}

/// The room that is made on the call stack for a value is enough for what is to be put
/// there: for its words where its representation is asked for, and for all that it refers to
/// where the value is too; and where only the value is asked for, for its contents.
pub proof fn law_room_is_enough(ty: TypeSignature)
    ensures
        call_stack_size(ty, true, false) == type_size(ty),
        call_stack_size(ty, true, true) >= type_size(ty) + most_contents(ty),
        call_stack_size(ty, true, true) == 2 * type_size(ty) + most_contents(ty),
        call_stack_size(ty, false, true) == in_memory_size(ty, false),
{
    law_size_in_memory_is_enough(ty);
}

/// Whether an instruction that accesses memory accesses the given one, aligned as wide as
/// what is accessed.
pub open spec fn accesses_only(op: Op, memory: nat) -> bool {
    match op {
        Op::Load { memory: accessed, ty, align, .. } => accessed == memory && align == width(ty),
        Op::Store { memory: accessed, ty, align, .. } => accessed == memory && align == width(ty),
        Op::MemoryCopy { source, destination } => source == memory && destination == memory,
        _ => true,
    }
}

/// Whether all instructions of a list do.
pub open spec fn all_access_only(ops: Seq<Op>, memory: nat) -> bool {
    forall|i: int| 0 <= i < ops.len() ==> accesses_only(#[trigger] ops[i], memory)
}

/// A value is read from the memory that is given, and nowhere else.
pub proof fn law_reading_accesses_the_memory(
    ty: TypeSignature,
    memory: nat,
    base: nat,
    at: nat,
)
    ensures
        all_access_only(read_ops(ty, memory, base, at), memory),
    decreases ty, 0int,
{
    match ty {
        TypeSignature::OptionalType(inner) => {
            law_reading_accesses_the_memory(*inner, memory, base, at + 4);
        },
        TypeSignature::ResponseType(inner) => {
            law_reading_accesses_the_memory(inner.0, memory, base, at + 4);
            law_reading_accesses_the_memory(
                inner.1,
                memory,
                base,
                at + 4 + type_size(inner.0),
            );
        },
        TypeSignature::TupleType(tuple) => {
            lemma_reading_fields_accesses(tuple@, tuple@.len(), memory, base, at);
        },
        _ => {},
    }
}

proof fn lemma_reading_fields_accesses(
    fields: Seq<(String, TypeSignature)>,
    m: nat,
    memory: nat,
    base: nat,
    at: nat,
)
    ensures
        all_access_only(fields_read_ops(fields, m, memory, base, at), memory),
    decreases fields, m,
{
    if 0 < m <= fields.len() {
        lemma_reading_fields_accesses(fields, (m - 1) as nat, memory, base, at);
        law_reading_accesses_the_memory(
            fields[m - 1].1,
            memory,
            base,
            at + fields_size(fields, (m - 1) as nat),
        );
    }
}

/// A value is written to the memory that is given, and nowhere else.
pub proof fn law_writing_accesses_the_memory(
    ty: TypeSignature,
    memory: nat,
    base: nat,
    at: nat,
    n: nat,
)
    ensures
        all_access_only(write_ops(ty, memory, base, at, n), memory),
    decreases ty, 0int,
{
    match ty {
        TypeSignature::OptionalType(inner) => {
            law_writing_accesses_the_memory(*inner, memory, base, at + 4, n);
        },
        TypeSignature::ResponseType(inner) => {
            law_writing_accesses_the_memory(
                inner.1,
                memory,
                base,
                at + 4 + type_size(inner.0),
                n,
            );
            law_writing_accesses_the_memory(
                inner.0,
                memory,
                base,
                at + 4,
                n + write_locals(inner.1).len(),
            );
        },
        TypeSignature::TupleType(tuple) => {
            lemma_writing_fields_accesses(tuple@, tuple@.len(), memory, base, at, n);
        },
        _ => {},
    }
}

proof fn lemma_writing_fields_accesses(
    fields: Seq<(String, TypeSignature)>,
    m: nat,
    memory: nat,
    base: nat,
    at: nat,
    n: nat,
)
    ensures
        all_access_only(fields_write_ops(fields, m, memory, base, at, n), memory),
    decreases fields, m,
{
    if 0 < m <= fields.len() {
        let ty = fields[m - 1].1;
        law_writing_accesses_the_memory(
            ty,
            memory,
            base,
            at + fields_size(fields, (m - 1) as nat),
            n,
        );
        lemma_writing_fields_accesses(
            fields,
            (m - 1) as nat,
            memory,
            base,
            at,
            n + write_locals(ty).len(),
        );
    }
}

/// A constant is read from the first memory of the module.
pub proof fn law_constant_accesses_the_first_memory(
    start: Progress,
    address: u32,
    expr: SymbolicExpression,
)
    requires
        start.failure is None,
        start.code.wf(),
        constant_effect(start, address, expr).failure is None,
    ensures
        first_memory_index(start.generator.module) matches Some(memory) && all_access_only(
            stretch(start.code, constant_effect(start, address, expr).code),
            memory,
        ),
{
    reveal(CodeView::emit_all);
    let memory = first_memory_index(start.generator.module)->0;
    let local = start.generator.next_local();
    let ty = pointee(start.generator.analysis.type_of(expr)->0);
    law_reading_accesses_the_memory(ty, memory, local, 0);
    let first = no_ops().push(Op::I32Const(address as i32)).push(Op::LocalSet(local));
    let after = constant_effect(start, address, expr);
    assert(stretch(start.code, after.code) =~= first + read_ops(ty, memory, local, 0));
}

/// A result that lies in memory is copied within the first memory of the module.
pub proof fn law_result_is_copied_within_the_first_memory(start: Progress, ty: TypeSignature)
    requires
        start.failure is None,
        start.code.wf(),
        lies_in_memory(ty),
        copy_result_effect(start, ty).failure is None,
    ensures
        first_memory_index(start.generator.module) matches Some(memory) && all_access_only(
            stretch(start.code, copy_result_effect(start, ty).code),
            memory,
        ),
{
    reveal(CodeView::emit_all);
    let memory = first_memory_index(start.generator.module)->0;
    let n = start.generator.next_local();
    let after = copy_result_effect(start, ty);
    assert(stretch(start.code, after.code) =~= reserve_ops(n, start.generator.stack_pointer)
        + copy_ops(n, memory));
}

/// The elements of a sequence are what it is made of: the entries of a list, and for another
/// sequence something in memory that takes as much of it as one byte or character does.
pub proof fn law_elements_make_up_the_sequence(ty: Rc<TypeSignature>)
    ensures
        match *ty {
            TypeSignature::SequenceType(SequenceSubtype::ListType(list)) => {
                &&& element_of(Some(ty)) matches Ok(element)
                &&& element_type(element) == *list.entry_type
            },
            TypeSignature::SequenceType(SequenceSubtype::BufferType(length)) => {
                &&& element_of(Some(ty)) matches Ok(element)
                &&& lies_in_memory(element_type(element))
                &&& most_contents(*ty) == length
                &&& most_contents(element_type(element)) == 1
            },
            TypeSignature::SequenceType(SequenceSubtype::StringType(StringSubtype::ASCII(n))) => {
                &&& element_of(Some(ty)) matches Ok(element)
                &&& lies_in_memory(element_type(element))
                &&& most_contents(*ty) == n
                &&& most_contents(element_type(element)) == 1
            },
            TypeSignature::SequenceType(SequenceSubtype::StringType(StringSubtype::UTF8(n))) => {
                &&& element_of(Some(ty)) matches Ok(element)
                &&& lies_in_memory(element_type(element))
                &&& most_contents(*ty) == 4 * n
                &&& most_contents(element_type(element)) == 4
            },
            _ => element_of(Some(ty)) is Err,
        },
        element_of(None) is Err,
{
    let byte = TypeSignature::SequenceType(SequenceSubtype::BufferType(1));
    let scalar = TypeSignature::SequenceType(
        SequenceSubtype::StringType(StringSubtype::UTF8(1)),
    );
    assert(most_contents(byte) == 1);
    assert(most_contents(scalar) == 4);
}

/// The function that a name finds is the first one of that name, and none is found only
/// where no function has the name.
pub proof fn law_first_function_is_found(functions: Seq<FunctionView>, name: Seq<char>)
    ensures
        match first_named(functions, name) {
            Some(found) => {
                &&& found < functions.len()
                &&& functions[found as int].name == Some(name)
                &&& forall|i: int| 0 <= i < found ==> (#[trigger] functions[i]).name != Some(name)
            },
            None => forall|i: int|
                0 <= i < functions.len() ==> (#[trigger] functions[i]).name != Some(name),
        },
    decreases functions.len(),
{
    if functions.len() > 0 {
        let before = functions.drop_last();
        law_first_function_is_found(before, name);
        assert forall|i: int| 0 <= i < before.len() implies before[i] == #[trigger] functions[
            i
        ] by {}
    }
}

/// The global that a name finds is the first one of that name, and none is found only where
/// no global has the name.
pub proof fn law_first_global_is_found(globals: Seq<GlobalView>, name: Seq<char>)
    ensures
        match global_named(globals, name, 0) {
            Some(found) => exists|k: int|
                {
                    &&& 0 <= k < globals.len()
                    &&& (#[trigger] globals[k]).index == found
                    &&& globals[k].name == Some(name)
                    &&& forall|i: int| 0 <= i < k ==> (#[trigger] globals[i]).name != Some(name)
                },
            None => forall|i: int|
                0 <= i < globals.len() ==> (#[trigger] globals[i]).name != Some(name),
        },
{
    lemma_first_global(globals, name, 0);
}

proof fn lemma_first_global(globals: Seq<GlobalView>, name: Seq<char>, from: nat)
    requires
        forall|i: int|
            0 <= i < from && i < globals.len() ==> (#[trigger] globals[i]).name != Some(name),
    ensures
        match global_named(globals, name, from) {
            Some(found) => exists|k: int|
                {
                    &&& 0 <= k < globals.len()
                    &&& (#[trigger] globals[k]).index == found
                    &&& globals[k].name == Some(name)
                    &&& forall|i: int| 0 <= i < k ==> (#[trigger] globals[i]).name != Some(name)
                },
            None => forall|i: int|
                0 <= i < globals.len() ==> (#[trigger] globals[i]).name != Some(name),
        },
    decreases globals.len() - from,
{
    if from < globals.len() {
        if globals[from as int].name == Some(name) {
            assert(globals[from as int].index == global_named(globals, name, from)->0);
        } else {
            lemma_first_global(globals, name, from + 1);
        }
    }
}

} // verus!

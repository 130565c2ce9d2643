//! What names and literals leave on the stack when what is written for them runs.
use vstd::prelude::*;
use vstd::utf8::{decode_utf8, encode_utf8, valid_utf8};

use crate::analysis::{CharType, PrincipalData, SequenceData, SymbolicExpression, Value};
use crate::clarity_vm::{is_quoted, native_variable, NativeVariables};
use crate::error::Failure;
use crate::execution::called;
use crate::generator::{first_memory_index, GeneratorView};
use crate::ir::{group_emit, no_ops, ModuleView, Op, WasmType};
use crate::layout::{fields_size, placeholders, type_size, wasm_repr};
use crate::laws::{
    law_call_stack_room, law_number_literal, law_placeholder_has_the_type, law_scalar_bytes_len,
    law_unsigned_number_literal, lemma_pushes, number_words, zeros,
};
use crate::literal_laws::{law_literal_is_placed, Literal};
use crate::literal_table::{be_bytes, scalar_bytes};
use crate::literals::{
    bytes_at, high_half, joined, lemma_identifier_is_placed, literal_bytes, literal_effect,
    low_half, place_identifier, place_value, quoted_are_strings, stored_bytes, word128,
};
use crate::machine::{
    capacity, le_value, lemma_le_value_of_le_bytes, lemma_run_push, word32, Machine, Word,
};
use crate::memory::{
    call_stack_ops, fields_obstacle, obstacle, pushes, read_failure, read_ops, write_failure,
};
use crate::memory_laws::{
    holds_bytes, lemma_read_value, settled, value_bytes, with_words, words_have_types,
};
use crate::progress::Progress;
use crate::runs::{lemma_leads_call, lemma_leads_plain, lemma_leads_twice, Run};
use crate::types::{are_value_types, is_value_type, pointee, TypeSignature};
use crate::variables::{
    atom_effect, constant_effect, principal_place_effect, reserved_variable_effect,
};

verus! {

broadcast use group_emit;

/// A word of 32 bits is the same whether its number has a sign or not.
proof fn lemma_word_without_sign(value: u32)
    ensures
        word32(value as i32) == value,
{
    assert(if (value as i32) >= 0 {
        (value as i32) as u32 == value
    } else {
        ((value as i32) + 0x1_0000_0000) as u32 == value
    }) by (bit_vector);
}

/// Pushing two words of 32 bits.
pub proof fn lemma_push_two(machine: Machine, first: u32, second: u32)
    ensures
        machine.run(
            no_ops().push(Op::I32Const(first as i32)).push(Op::I32Const(second as i32)),
        ) == Some(machine.push(Word::I32(first)).push(Word::I32(second))),
{
    broadcast use lemma_run_push;

    assert(machine.run(no_ops()) == Some(machine));
    lemma_word_without_sign(first);
    lemma_word_without_sign(second);
}

/// A value of a type that is not larger than memory has nothing in the way.
proof fn lemma_no_obstacle(ty: TypeSignature, at: nat)
    requires
        is_value_type(ty),
        at + type_size(ty) <= u32::MAX,
    ensures
        obstacle(ty, at) is None,
    decreases ty, 0int,
{
    match ty {
        TypeSignature::OptionalType(inner) => lemma_no_obstacle(*inner, at + 4),
        TypeSignature::ResponseType(inner) => {
            lemma_no_obstacle(inner.0, at + 4);
            lemma_no_obstacle(inner.1, at + 4 + type_size(inner.0));
        },
        TypeSignature::TupleType(tuple) => {
            lemma_no_field_obstacle(tuple@, tuple@.len(), at);
        },
        _ => {},
    }
}

proof fn lemma_no_field_obstacle(fields: Seq<(String, TypeSignature)>, n: nat, at: nat)
    requires
        n <= fields.len(),
        are_value_types(fields, n),
        at + fields_size(fields, n) <= u32::MAX,
    ensures
        fields_obstacle(fields, n, at) is None,
    decreases fields, n,
{
    if n > 0 {
        lemma_no_field_obstacle(fields, (n - 1) as nat, at);
        lemma_no_obstacle(fields[n - 1].1, at + fields_size(fields, (n - 1) as nat));
    }
}

/// Every value that is not larger than memory can be written to memory and read from it, and
/// a value of a type that no value has cannot be written.
pub proof fn law_values_can_be_moved(generator: GeneratorView, ty: TypeSignature, at: u32)
    requires
        first_memory_index(generator.module) is Some,
    ensures
        is_value_type(ty) && type_size(ty) <= i32::MAX && at + type_size(ty) <= u32::MAX
            ==> write_failure(generator, ty, at) is None && read_failure(generator, ty, at) is None,
        !is_value_type(ty) ==> write_failure(generator, ty, at) is Some,
{
    if is_value_type(ty) && at + type_size(ty) <= u32::MAX {
        lemma_no_obstacle(ty, at as nat);
    }
}

/// A name that every contract has means that variable, whatever else has the name; else a
/// constant of the name comes before a parameter or local binding; and a name that is none
/// of these cannot be visited.
pub proof fn law_names_are_found_in_order(
    start: Progress,
    name: Seq<char>,
    expr: SymbolicExpression,
)
    ensures
        ({
            let generator = start.generator;
            let after = atom_effect(start, name, expr);
            match native_variable(name, generator.analysis.version) {
                Some(variable) => after == reserved_variable_effect(start, variable, expr),
                None => {
                    &&& generator.constants.contains_key(name) ==> after == constant_effect(
                        start,
                        generator.constants[name],
                        expr,
                    )
                    &&& !generator.constants.contains_key(name) && !generator.bindings.contains_key(
                        name,
                    ) ==> after == start.fail(
                        Failure::InternalError("unable to find local for "@ + name),
                    )
                },
            }
        }),
{
    reveal(atom_effect);
}

/// The code for `none` leaves zeros of the types of the words that its type has. For an
/// optional type these are the indicator zero, and zeros in place of the value that is not
/// there. Where `none` has no type it cannot be visited.
pub proof fn law_none_is_zeros(
    run: Run,
    start: Progress,
    expr: SymbolicExpression,
    machine: Machine,
)
    requires
        start.failure is None,
        start.code.wf(),
    ensures
        ({
            let after = reserved_variable_effect(start, NativeVariables::NativeNone, expr);
            match start.generator.analysis.type_of(expr) {
                Some(ty) => {
                    &&& after.failure is None
                    &&& after.generator == start.generator
                    &&& run.leads(
                        start.code,
                        after.code,
                        machine,
                        with_words(machine, zeros(wasm_repr(*ty))),
                    )
                    &&& *ty matches TypeSignature::OptionalType(inner) ==> run.leads(
                        start.code,
                        after.code,
                        machine,
                        with_words(machine, seq![Word::I32(0)] + zeros(wasm_repr(*inner))),
                    )
                },
                None => after.failure is Some,
            }
        }),
{
    if let Some(found) = start.generator.analysis.type_of(expr) {
        let ty = pointee(found);
        law_placeholder_has_the_type(ty, machine);
        lemma_leads_plain(
            run,
            start.code,
            placeholders(wasm_repr(ty)),
            machine,
            with_words(machine, zeros(wasm_repr(ty))),
        );
        if let TypeSignature::OptionalType(inner) = ty {
            assert(zeros(wasm_repr(ty)) =~= seq![Word::I32(0)] + zeros(wasm_repr(*inner)));
        }
    }
}

/// The code for `true` leaves one, and the code for `false` leaves zero.
pub proof fn law_truth_values(
    run: Run,
    start: Progress,
    expr: SymbolicExpression,
    truth: bool,
    machine: Machine,
)
    requires
        start.failure is None,
        start.code.wf(),
    ensures
        ({
            let variable = if truth {
                NativeVariables::NativeTrue
            } else {
                NativeVariables::NativeFalse
            };
            let after = reserved_variable_effect(start, variable, expr);
            &&& after.failure is None
            &&& after.generator == start.generator
            &&& run.leads(
                start.code,
                after.code,
                machine,
                machine.push(
                    Word::I32(
                        if truth {
                            1
                        } else {
                            0
                        },
                    ),
                ),
            )
        }),
{
    broadcast use lemma_run_push;

    assert(machine.run(no_ops()) == Some(machine));
    let value: i32 = if truth {
        1
    } else {
        0
    };
    let ops = no_ops().push(Op::I32Const(value));
    lemma_leads_plain(run, start.code, ops, machine, machine.run(ops)->0);
}

/// The function of the host that knows a number or a truth value that every contract has.
pub open spec fn host_function(variable: NativeVariables) -> Option<Seq<char>> {
    match variable {
        NativeVariables::BlockHeight => Some("stdlib.block_height"@),
        NativeVariables::StacksBlockHeight => Some("stdlib.stacks_block_height"@),
        NativeVariables::TenureHeight => Some("stdlib.tenure_height"@),
        NativeVariables::BurnBlockHeight => Some("stdlib.burn_block_height"@),
        NativeVariables::TotalLiquidMicroSTX => Some("stdlib.stx_liquid_supply"@),
        NativeVariables::Regtest => Some("stdlib.is_in_regtest"@),
        NativeVariables::Mainnet => Some("stdlib.is_in_mainnet"@),
        NativeVariables::ChainId => Some("stdlib.chain_id"@),
        _ => None,
    }
}

/// The function of the host that knows a principal that every contract has.
pub open spec fn principal_function(variable: NativeVariables) -> Option<Seq<char>> {
    match variable {
        NativeVariables::TxSender => Some("stdlib.tx_sender"@),
        NativeVariables::ContractCaller => Some("stdlib.contract_caller"@),
        NativeVariables::TxSponsor => Some("stdlib.tx_sponsor"@),
        _ => None,
    }
}

/// A number or truth value that every contract has is what the host says it is: the code for
/// it calls the function of the host that knows it, with the stack as it is.
pub proof fn law_variable_asks_the_host(
    run: Run,
    start: Progress,
    variable: NativeVariables,
    expr: SymbolicExpression,
    machine: Machine,
)
    requires
        start.failure is None,
        start.code.wf(),
        host_function(variable) is Some,
        start.generator.module.has_function(host_function(variable)->0),
        called(
            run.around,
            start.generator.module.function(host_function(variable)->0),
            machine,
        ) is Some,
    ensures
        ({
            let after = reserved_variable_effect(start, variable, expr);
            &&& after.failure is None
            &&& after.generator == start.generator
            &&& run.leads(
                start.code,
                after.code,
                machine,
                called(
                    run.around,
                    start.generator.module.function(host_function(variable)->0),
                    machine,
                )->0,
            )
        }),
{
    lemma_leads_call(run, start, host_function(variable)->0, machine);
}

/// A module with one more local, for a word of 32 bits.
pub open spec fn with_one_more_local(module: ModuleView) -> ModuleView {
    ModuleView { locals: module.locals.push(WasmType::I32), ..module }
}

/// The machine when the host is asked for a principal: room for the longest one, which has
/// a version, a hash, the length of a name and a name, is made at the stack pointer, and
/// the place and the size of the room are on the stack.
pub open spec fn principal_asked_for(
    machine: Machine,
    stack_pointer: nat,
    local: nat,
    place: u32,
) -> Machine {
    Machine {
        stack: machine.stack.push(Word::I32(place)).push(Word::I32(150)),
        locals: machine.locals.insert(local, Word::I32(place)),
        globals: machine.globals.insert(stack_pointer, Word::I32((place + 150) as u32)),
        ..machine
    }
}

/// A principal that every contract has is fetched from the host: the code for it makes room
/// for a principal at the stack pointer, moves the stack pointer past the room, and calls
/// the function of the host that knows the principal with the place and the size of the
/// room on the stack. The frame of the function is counted to be larger by that size.
pub proof fn law_principal_is_fetched(
    run: Run,
    start: Progress,
    variable: NativeVariables,
    expr: SymbolicExpression,
    machine: Machine,
    place: u32,
)
    requires
        start.failure is None,
        start.code.wf(),
        start.generator.frame_size + 150 <= i32::MAX,
        principal_function(variable) is Some,
        start.generator.module.has_function(principal_function(variable)->0),
        machine.globals.contains_key(start.generator.stack_pointer),
        machine.globals[start.generator.stack_pointer] == Word::I32(place),
        place + 150 <= u32::MAX,
        called(
            run.around,
            start.generator.module.function(principal_function(variable)->0),
            principal_asked_for(
                machine,
                start.generator.stack_pointer,
                start.generator.next_local(),
                place,
            ),
        ) is Some,
    ensures
        ({
            let after = reserved_variable_effect(start, variable, expr);
            let asked = principal_asked_for(
                machine,
                start.generator.stack_pointer,
                start.generator.next_local(),
                place,
            );
            let function = start.generator.module.function(principal_function(variable)->0);
            &&& after.failure is None
            &&& after.generator == (GeneratorView {
                module: with_one_more_local(start.generator.module),
                frame_size: (start.generator.frame_size + 150) as i32,
                ..start.generator
            })
            &&& run.leads(
                start.code,
                after.code,
                machine,
                called(run.around, function, asked)->0,
            )
        }),
{
    broadcast use lemma_run_push;

    let generator = start.generator;
    let local = generator.next_local();
    let name = principal_function(variable)->0;
    let ops = call_stack_ops(generator.stack_pointer, local, 150);
    let more = no_ops().push(Op::LocalGet(local)).push(Op::I32Const(150));
    law_call_stack_room(machine, generator.stack_pointer, local, 150, place);
    let roomy = machine.run(ops)->0;
    assert(roomy.run(no_ops()) == Some(roomy));
    let asked = principal_asked_for(machine, generator.stack_pointer, local, place);
    assert(roomy.run(more)->0.stack =~= asked.stack);
    assert(roomy.run(more) == Some(asked));
    let placed = principal_place_effect(start);
    let between = start.code.emit_all(ops);
    lemma_leads_plain(run, start.code, ops, machine, roomy);
    lemma_leads_plain(run, between, more, roomy, asked);
    lemma_leads_twice(run, start.code, between, placed.code, machine, roomy, asked);
    lemma_leads_call(run, placed, name, asked);
    let function = generator.module.function(name);
    lemma_leads_twice(
        run,
        start.code,
        placed.code,
        placed.call(name).code,
        machine,
        asked,
        called(run.around, function, asked)->0,
    );
}

/// The code for a constant leaves its value, for every type that has values: where memory
/// holds the bytes of a value at the address of the constant, that value is pushed.
pub proof fn law_constant_is_read(
    run: Run,
    start: Progress,
    address: u32,
    expr: SymbolicExpression,
    ty: TypeSignature,
    words: Seq<Word>,
    machine: Machine,
)
    requires
        start.failure is None,
        start.code.wf(),
        start.generator.analysis.type_of(expr) matches Some(found) && *found == ty,
        first_memory_index(start.generator.module) is Some,
        is_value_type(ty),
        type_size(ty) <= i32::MAX,
        words_have_types(words, wasm_repr(ty)),
        holds_bytes(machine.memory, address as nat, value_bytes(ty, words)),
    ensures
        ({
            let after = constant_effect(start, address, expr);
            let local = start.generator.next_local();
            &&& after.failure is None
            &&& after.generator == (GeneratorView {
                module: with_one_more_local(start.generator.module),
                ..start.generator
            })
            &&& run.leads(
                start.code,
                after.code,
                machine,
                Machine {
                    stack: machine.stack + settled(ty, words),
                    locals: machine.locals.insert(local, Word::I32(address)),
                    ..machine
                },
            )
        }),
{
    broadcast use lemma_run_push;

    let local = start.generator.next_local();
    let ops = no_ops().push(Op::I32Const(address as i32)).push(Op::LocalSet(local));
    assert(machine.run(no_ops()) == Some(machine));
    lemma_word_without_sign(address);
    let addressed = machine.run(ops)->0;
    assert(addressed.stack =~= machine.stack);
    let code = start.code.emit_all(ops);
    lemma_leads_plain(run, start.code, ops, machine, addressed);
    lemma_no_obstacle(ty, 0);
    let memory = first_memory_index(start.generator.module)->0;
    lemma_read_value(ty, addressed, words, memory, local, address, 0);
    let read = with_words(addressed, settled(ty, words));
    lemma_leads_plain(run, code, read_ops(ty, memory, local, 0), addressed, read);
    let after = constant_effect(start, address, expr);
    assert(pointee(start.generator.analysis.type_of(expr)->0) == ty);
    lemma_leads_twice(run, start.code, code, after.code, machine, addressed, read);
}

/// The code for a parameter or local binding leaves what its locals hold, in order.
pub proof fn law_binding_is_pushed(
    run: Run,
    start: Progress,
    name: Seq<char>,
    expr: SymbolicExpression,
    words: Seq<Word>,
    machine: Machine,
)
    requires
        start.failure is None,
        start.code.wf(),
        native_variable(name, start.generator.analysis.version) is None,
        !start.generator.constants.contains_key(name),
        start.generator.bindings.contains_key(name),
        words.len() == start.generator.bindings[name].len(),
        forall|i: int|
            0 <= i < words.len() ==> machine.locals.contains_key(
                #[trigger] start.generator.bindings[name][i],
            ) && machine.locals[start.generator.bindings[name][i]] == words[i],
    ensures
        ({
            let after = atom_effect(start, name, expr);
            &&& after.failure is None
            &&& after.generator == start.generator
            &&& run.leads(start.code, after.code, machine, with_words(machine, words))
        }),
{
    reveal(atom_effect);
    let locals = start.generator.bindings[name];
    lemma_pushes(machine, locals, words, locals.len());
    assert(locals.take(locals.len() as int) =~= locals);
    assert(words.take(words.len() as int) =~= words);
    lemma_leads_plain(run, start.code, pushes(locals), machine, with_words(machine, words));
}

/// The text of a UTF-8 string: what its elements, one after the other, encode.
pub open spec fn text_of(data: Seq<Vec<u8>>) -> Seq<char> {
    decode_utf8(data.map_values(|part: Vec<u8>| part@).flatten())
}

/// Whether bytes are the scalar values of a text, each as four bytes, the most significant
/// first.
pub open spec fn are_scalars(bytes: Seq<u8>, text: Seq<char>) -> bool {
    &&& bytes.len() == 4 * text.len()
    &&& forall|i: int|
        0 <= i < text.len() ==> 0x100_0000 * bytes[4 * i] + 0x1_0000 * bytes[4 * i + 1] + 0x100
            * bytes[4 * i + 2] + bytes[4 * i + 3] == (#[trigger] text[i]) as u32
}

/// Whether bytes are those of a literal: the bytes of a number, the least significant first;
/// the characters of a string; those of a buffer; or the version and the hash of an account,
/// then the length of the name of its contract and that name.
pub open spec fn are_literal_bytes(value: Value, bytes: Seq<u8>) -> bool {
    match value {
        Value::Int(number) => bytes.len() == 16 && le_value(bytes) == if number >= 0 {
            number as int
        } else {
            number + 0x1_0000_0000_0000_0000_0000_0000_0000_0000
        },
        Value::UInt(number) => bytes.len() == 16 && le_value(bytes) == number,
        Value::Sequence(SequenceData::Buffer(data)) => bytes == data@,
        Value::Sequence(SequenceData::String(CharType::ASCII(data))) => bytes == data@,
        Value::Sequence(SequenceData::String(CharType::UTF8(data))) => are_scalars(
            bytes,
            text_of(data@),
        ),
        Value::Principal(PrincipalData::Standard(account)) => {
            &&& bytes.len() == 22
            &&& bytes[0] == account.version
            &&& bytes.subrange(1, 21) == account.hash@
            &&& bytes[21] == 0
        },
        Value::Principal(PrincipalData::Contract(issuer, name)) => {
            let text = encode_utf8(name@);
            &&& bytes.len() == 22 + text.len()
            &&& bytes[0] == issuer.version
            &&& bytes.subrange(1, 21) == issuer.hash@
            &&& text.len() <= u8::MAX ==> bytes[21] == text.len()
            &&& bytes.skip(22) == text
        },
        _ => false,
    }
}

/// How many bytes a literal takes.
pub open spec fn literal_length(value: Value) -> nat {
    match value {
        Value::Int(_) | Value::UInt(_) => 16,
        Value::Sequence(SequenceData::Buffer(data)) => data@.len(),
        Value::Sequence(SequenceData::String(CharType::ASCII(data))) => data@.len(),
        Value::Sequence(SequenceData::String(CharType::UTF8(data))) => 4 * data@.len(),
        Value::Principal(PrincipalData::Contract(_, name)) => 22 + encode_utf8(name@).len(),
        _ => 22,
    }
}

/// Whether a value can be written out, and where it is a UTF-8 string is one that a contract
/// can hold: it is valid, and each of its elements encodes one character.
pub open spec fn is_literal(value: Value) -> bool {
    match value {
        Value::Int(_)
        | Value::UInt(_)
        | Value::Principal(_)
        | Value::Sequence(SequenceData::Buffer(_))
        | Value::Sequence(SequenceData::String(CharType::ASCII(_))) => true,
        Value::Sequence(SequenceData::String(CharType::UTF8(data))) => {
            &&& valid_utf8(data@.map_values(|part: Vec<u8>| part@).flatten())
            &&& text_of(data@).len() == data@.len()
        },
        _ => false,
    }
}

/// Joining the elements of a list is putting them one after the other.
proof fn lemma_joined_is_flat(parts: Seq<Vec<u8>>, n: nat)
    requires
        n <= parts.len(),
    ensures
        joined(parts, n) == parts.take(n as int).map_values(|part: Vec<u8>| part@).flatten(),
    decreases n,
{
    let own = |part: Vec<u8>| part@;
    let all = parts.take(n as int).map_values(own);
    if n == 0 {
        assert(all =~= Seq::empty());
    } else {
        lemma_joined_is_flat(parts, (n - 1) as nat);
        let before = parts.take(n - 1).map_values(own);
        assert(all =~= before.push(parts[n - 1]@));
        before.lemma_flatten_push(parts[n - 1]@);
    }
}

/// The bytes of a text are its scalar values.
proof fn lemma_scalars(text: Seq<char>)
    ensures
        are_scalars(scalar_bytes(text), text),
    decreases text.len(),
{
    law_scalar_bytes_len(text);
    if text.len() > 0 {
        let before = text.drop_last();
        let last = text.last() as u32;
        let bytes = scalar_bytes(text);
        lemma_scalars(before);
        law_scalar_bytes_len(before);
        let own = be_bytes(last as nat, 4);
        reveal_with_fuel(be_bytes, 5);
        assert(own.len() == 4);
        assert(0x100_0000 * own[0] + 0x1_0000 * own[1] + 0x100 * own[2] + own[3] == last);
        assert forall|i: int| 0 <= i < text.len() implies 0x100_0000 * bytes[4 * i] + 0x1_0000
            * bytes[4 * i + 1] + 0x100 * bytes[4 * i + 2] + bytes[4 * i + 3] == (
        #[trigger] text[i]) as u32 by {
            if i < before.len() {
                let held = scalar_bytes(before);
                assert(before[i] == text[i]);
                assert(held[4 * i] == bytes[4 * i]);
                assert(held[4 * i + 1] == bytes[4 * i + 1]);
                assert(held[4 * i + 2] == bytes[4 * i + 2]);
                assert(held[4 * i + 3] == bytes[4 * i + 3]);
            } else {
                assert(bytes[4 * i] == own[0]);
                assert(bytes[4 * i + 1] == own[1]);
                assert(bytes[4 * i + 2] == own[2]);
                assert(bytes[4 * i + 3] == own[3]);
            }
        }
    }
}

/// The bytes that are put into memory for a literal are its own.
proof fn lemma_literal_bytes(value: Value)
    requires
        is_literal(value),
    ensures
        stored_bytes(value) matches Some(bytes) && are_literal_bytes(value, bytes) && bytes.len()
            == literal_length(value),
{
    reveal_with_fuel(capacity, 17);
    match value {
        Value::Int(number) => lemma_le_value_of_le_bytes(word128(number), 16),
        Value::UInt(number) => lemma_le_value_of_le_bytes(number as nat, 16),
        Value::Sequence(SequenceData::String(CharType::UTF8(data))) => {
            lemma_joined_is_flat(data@, data@.len());
            assert(data@.take(data@.len() as int) =~= data@);
            lemma_scalars(text_of(data@));
        },
        Value::Principal(PrincipalData::Standard(account)) => {
            let bytes = literal_bytes(value)->0;
            assert(bytes.subrange(1, 21) =~= account.hash@);
        },
        Value::Principal(PrincipalData::Contract(issuer, name)) => {
            let bytes = literal_bytes(value)->0;
            assert(bytes.subrange(1, 21) =~= issuer.hash@);
            assert(bytes.skip(22) =~= encode_utf8(name@));
        },
        _ => {},
    }
}

/// A literal is put into memory wherever there is room for it, with its own bytes, and a
/// value that is no literal is not.
pub proof fn law_literal_is_put_into_memory(start: Progress, value: Value)
    requires
        start.generator.wf(),
        quoted_are_strings(start.generator),
        first_memory_index(start.generator.module) is Some,
        start.generator.literal_memory_end + literal_length(value) <= u32::MAX,
    ensures
        is_literal(value) ==> (place_value(start.generator, value) matches placed
            && placed.place matches Ok((offset, length)) && exists|bytes: Seq<u8>|
            are_literal_bytes(value, bytes) && length == bytes.len() && #[trigger] bytes_at(
                placed.generator,
                offset,
                bytes,
            )),
        !(value is Int || value is UInt || value is Principal || value is Sequence)
            ==> place_value(start.generator, value).place is Err,
{
    if is_literal(value) {
        lemma_literal_bytes(value);
        let bytes = stored_bytes(value)->0;
        if let Value::Sequence(SequenceData::String(CharType::UTF8(data))) = value {
            lemma_joined_is_flat(data@, data@.len());
            assert(data@.take(data@.len() as int) =~= data@);
        }
        let placed = place_value(start.generator, value);
        assert(placed.place is Ok);
        law_literal_is_placed(start.generator, Literal::Value(value));
        assert(bytes_at(placed.generator, placed.place->Ok_0.0, bytes));
    }
}

/// An identifier is put into memory wherever there is room for it: as the bytes of its text.
pub proof fn law_identifier_is_put_into_memory(generator: GeneratorView, name: Seq<char>)
    requires
        generator.wf(),
        !is_quoted(name),
        first_memory_index(generator.module) is Some,
        generator.literal_memory_end + encode_utf8(name).len() <= u32::MAX,
    ensures
        ({
            let placed = place_identifier(generator, name);
            &&& placed.place matches Ok((offset, length))
            &&& length == encode_utf8(name).len()
            &&& bytes_at(placed.generator, offset, encode_utf8(name))
        }),
{
    lemma_identifier_is_placed(generator, name);
}

/// A value that is no literal cannot be written out: a truth value, a tuple, an optional, a
/// response, a callable or a list.
pub proof fn law_no_literal_cannot_be_pushed(start: Progress, value: Value)
    requires
        start.failure is None,
        value is Bool || value is Tuple || value is Optional || value is Response
            || value is CallableContract || (value matches Value::Sequence(SequenceData::List(_))),
    ensures
        literal_effect(start, value).failure is Some,
        literal_effect(start, value).code == start.code,
        literal_effect(start, value).generator == start.generator,
{
    reveal(literal_effect);
}

/// The code for a literal that is placed in memory leaves where it is and then its length:
/// the literal memory holds exactly the bytes of the literal there.
pub proof fn law_literal_is_pushed(run: Run, start: Progress, value: Value, machine: Machine)
    requires
        start.failure is None,
        start.code.wf(),
        start.generator.wf(),
        quoted_are_strings(start.generator),
        value is Principal || value is Sequence,
        is_literal(value),
        first_memory_index(start.generator.module) is Some,
        start.generator.literal_memory_end + literal_length(value) <= u32::MAX,
    ensures
        ({
            let after = literal_effect(start, value);
            &&& after.failure is None
            &&& after.generator == (GeneratorView {
                module: ModuleView {
                    data: after.generator.module.data,
                    ..start.generator.module
                },
                literal_memory_end: after.generator.literal_memory_end,
                literals: after.generator.literals,
                ..start.generator
            })
            &&& exists|offset: u32, bytes: Seq<u8>|
                #![trigger bytes_at(after.generator, offset, bytes)]
                {
                    &&& are_literal_bytes(value, bytes)
                    &&& bytes.len() <= u32::MAX
                    &&& bytes_at(after.generator, offset, bytes)
                    &&& run.leads(
                        start.code,
                        after.code,
                        machine,
                        machine.push(Word::I32(offset)).push(Word::I32(bytes.len() as u32)),
                    )
                }
        }),
{
    reveal(literal_effect);
    law_literal_is_put_into_memory(start, value);
    let placed = place_value(start.generator, value);
    let (offset, length) = placed.place->Ok_0;
    let bytes = choose|bytes: Seq<u8>|
        are_literal_bytes(value, bytes) && length == bytes.len() && #[trigger] bytes_at(
            placed.generator,
            offset,
            bytes,
        );
    lemma_push_two(machine, offset, length);
    let ops = no_ops().push(Op::I32Const(offset as i32)).push(Op::I32Const(length as i32));
    lemma_leads_plain(run, start.code, ops, machine, machine.run(ops)->0);
    let after = literal_effect(start, value);
    assert(bytes_at(after.generator, offset, bytes));
}

/// The code for a number leaves its low half and then its high half, where a number that is
/// less than zero is in two's complement.
pub proof fn law_number_is_pushed(run: Run, start: Progress, value: Value, machine: Machine)
    requires
        start.failure is None,
        start.code.wf(),
        value is Int || value is UInt,
    ensures
        ({
            let after = literal_effect(start, value);
            &&& after.failure is None
            &&& after.generator == start.generator
            &&& exists|low: u64, high: u64|
                {
                    &&& low + 0x1_0000_0000_0000_0000 * high == match value {
                        Value::Int(number) => if number >= 0 {
                            number as int
                        } else {
                            number + 0x1_0000_0000_0000_0000_0000_0000_0000_0000
                        },
                        Value::UInt(number) => number as int,
                        _ => 0,
                    }
                    &&& #[trigger] run.leads(
                        start.code,
                        after.code,
                        machine,
                        machine.push(Word::I64(low)).push(Word::I64(high)),
                    )
                }
        }),
{
    reveal(literal_effect);
    let word: nat = match value {
        Value::Int(number) => word128(number),
        Value::UInt(number) => number as nat,
        _ => 0,
    };
    let low = (word % 0x1_0000_0000_0000_0000) as u64;
    let high = (word / 0x1_0000_0000_0000_0000) as u64;
    let then = machine.push(Word::I64(low)).push(Word::I64(high));
    assert(then =~= with_words(machine, number_words(word)));
    match value {
        Value::Int(number) => {
            law_number_literal(number, machine);
            let ops = no_ops()
                .push(Op::I64Const(low_half(word)))
                .push(Op::I64Const(high_half(word)));
            lemma_leads_plain(run, start.code, ops, machine, then);
        },
        Value::UInt(number) => {
            law_unsigned_number_literal(number, machine);
            let ops = no_ops()
                .push(Op::I64Const(low_half(word)))
                .push(Op::I64Const(high_half(word)));
            lemma_leads_plain(run, start.code, ops, machine, then);
        },
        _ => {},
    }
    assert(run.leads(
        start.code,
        literal_effect(start, value).code,
        machine,
        machine.push(Word::I64(low)).push(Word::I64(high)),
    ));
}

} // verus!

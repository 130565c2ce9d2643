//! Values that a contract writes out: where they go in memory, and how they are pushed.
use vstd::prelude::*;
use vstd::string::StringExecFns;
use vstd::utf8::{decode_utf8, encode_utf8, valid_utf8};

use crate::analysis::{CharType, PrincipalData, SequenceData, StandardPrincipalData, Value};
use crate::builder::InstrSeqBuilder;
use crate::clarity_vm::{
    ascii_display, ascii_to_string, is_quoted, lemma_display_is_injective,
    lemma_display_is_quoted,
};
use crate::error::{internal_error, Failure, GeneratorError};
use crate::generator::{
    first_memory_index, internal, GeneratorView, WasmGenerator, END_OF_STANDARD_DATA,
};
use crate::growth::{lemma_emitted, lemma_generator_grew, lemma_grew_twice, reached, stage};
use crate::ir::{group_emit, lemma_emit_all_nothing, no_ops, DataSegment, Op};
use crate::literal_table::{
    are_bytes_of, be_bytes, in_literal_memory, is_stored, le_bytes,
    lemma_literals_hold_with_more_data, lemma_literals_hold_with_one_more, lemma_one_more_fills,
    literals_hold, scalar_bytes, LiteralKey, LiteralMemoryEntry,
};
use crate::progress::{progress, Progress};
use crate::wasm_module::add_data;

verus! {

broadcast use group_emit;

/// The failure for a literal that has no place in memory.
pub open spec fn literal_memory_full() -> Failure {
    internal("literal memory is full"@)
}

/// Where a literal is, its length, or why it has no place; and the state after it was
/// placed.
pub struct Placement {
    pub generator: GeneratorView,
    pub place: Result<(u32, u32), Failure>,
}

/// Puts bytes at the end of the literal memory.
pub open spec fn place_bytes(generator: GeneratorView, bytes: Seq<u8>) -> Placement {
    match first_memory_index(generator.module) {
        None => Placement { generator, place: Err(internal("No memory found"@)) },
        Some(memory) => {
            let offset = generator.literal_memory_end;
            if offset + bytes.len() > u32::MAX {
                Placement { generator, place: Err(literal_memory_full()) }
            } else {
                let segment = DataSegment { memory, offset, bytes };
                Placement {
                    generator: GeneratorView {
                        literal_memory_end: (offset + bytes.len()) as u32,
                        ..generator.with_module(generator.module.add_data(segment))
                    },
                    place: Ok((offset, bytes.len() as u32)),
                }
            }
        },
    }
}

/// Puts a string into the literal memory, unless it is there already. `length` is what is
/// said to be its length if it is there.
pub open spec fn place_string(
    generator: GeneratorView,
    key: LiteralKey,
    bytes: Seq<u8>,
    length: nat,
) -> Placement {
    if generator.literals.contains_key(key) {
        Placement {
            generator,
            place: if length > u32::MAX {
                Err(literal_memory_full())
            } else {
                Ok((generator.literals[key], length as u32))
            },
        }
    } else {
        let placed = place_bytes(generator, bytes);
        if placed.place is Ok {
            Placement {
                generator: GeneratorView {
                    literals: generator.literals.insert(key, generator.literal_memory_end),
                    ..placed.generator
                },
                ..placed
            }
        } else {
            placed
        }
    }
}

/// Puts an identifier into the literal memory.
pub open spec fn place_identifier(generator: GeneratorView, name: Seq<char>) -> Placement {
    place_string(generator, LiteralKey::Ascii(name), encode_utf8(name), encode_utf8(name).len())
}

/// The bytes of the first `n` elements of a list, one after the other.
pub open spec fn joined(parts: Seq<Vec<u8>>, n: nat) -> Seq<u8>
    decreases n,
{
    if n == 0 || n > parts.len() {
        Seq::empty()
    } else {
        joined(parts, (n - 1) as nat) + parts[n - 1]@
    }
}

/// Puts the characters of a string into the literal memory.
pub open spec fn place_characters(generator: GeneratorView, characters: CharType) -> Placement {
    match characters {
        CharType::ASCII(data) => place_string(
            generator,
            LiteralKey::Ascii(ascii_display(data@)),
            data@,
            data@.len(),
        ),
        CharType::UTF8(data) => {
            let bytes = joined(data@, data@.len());
            if valid_utf8(bytes) {
                // Each character takes four bytes.
                place_string(
                    generator,
                    LiteralKey::Utf8(decode_utf8(bytes)),
                    scalar_bytes(decode_utf8(bytes)),
                    4 * data@.len(),
                )
            } else {
                Placement { generator, place: Err(internal("Invalid UTF-8 sequence"@)) }
            }
        },
    }
}

/// A number in two's complement on 128 bits.
pub open spec fn word128(value: i128) -> nat {
    if value >= 0 {
        value as nat
    } else {
        (value + 0x1_0000_0000_0000_0000_0000_0000_0000_0000) as nat
    }
}

/// The number whose two's complement on 64 bits is `word`.
pub open spec fn signed64(word: nat) -> i64 {
    if word < 0x8000_0000_0000_0000 {
        word as i64
    } else {
        (word - 0x1_0000_0000_0000_0000) as i64
    }
}

/// The low half of a 128-bit word.
pub open spec fn low_half(word: nat) -> i64 {
    signed64(word % 0x1_0000_0000_0000_0000)
}

/// The high half of a 128-bit word.
pub open spec fn high_half(word: nat) -> i64 {
    signed64(word / 0x1_0000_0000_0000_0000)
}

/// The version and the hash of an account.
pub open spec fn account_bytes(account: StandardPrincipalData) -> Seq<u8> {
    seq![account.version] + account.hash@
}

/// The bytes of a literal that is no string, where it has some.
pub open spec fn literal_bytes(value: Value) -> Option<Seq<u8>> {
    match value {
        Value::Int(number) => Some(le_bytes(word128(number), 16)),
        Value::UInt(number) => Some(le_bytes(number as nat, 16)),
        // An account has no contract name.
        Value::Principal(PrincipalData::Standard(account)) => Some(
            account_bytes(account) + seq![0u8],
        ),
        Value::Principal(PrincipalData::Contract(issuer, name)) => Some(
            account_bytes(issuer) + seq![encode_utf8(name@).len() as u8] + encode_utf8(name@),
        ),
        Value::Sequence(SequenceData::Buffer(data)) => Some(data@),
        _ => None,
    }
}

/// How a value that is no literal prints.
pub open spec fn printed(value: Value) -> Seq<char> {
    match value {
        Value::Bool(truth) => if truth {
            "Bool(true)"@
        } else {
            "Bool(false)"@
        },
        Value::Tuple(form) => form.text@,
        Value::Optional(form) => form.text@,
        Value::Response(form) => form.text@,
        Value::CallableContract(form) => form.text@,
        Value::Sequence(SequenceData::List(form)) => form.text@,
        _ => Seq::empty(),
    }
}

/// The failure for a value that cannot be written out.
pub open spec fn no_literal(value: Value) -> Failure {
    Failure::TypeError("Not a valid literal type: "@ + printed(value))
}

/// Puts a value into the literal memory.
pub open spec fn place_value(generator: GeneratorView, value: Value) -> Placement {
    match value {
        Value::Sequence(SequenceData::String(characters)) => place_characters(
            generator,
            characters,
        ),
        _ => match literal_bytes(value) {
            Some(bytes) => place_bytes(generator, bytes),
            None => Placement { generator, place: Err(no_literal(value)) },
        },
    }
}

/// Pushes a value that is written out: the halves of a number, or the place and the length
/// of what is in memory.
#[verifier::opaque]
pub open spec fn literal_effect(start: Progress, value: Value) -> Progress {
    match value {
        Value::Int(number) => start.emit_all(
            no_ops()
                .push(Op::I64Const(low_half(word128(number))))
                .push(Op::I64Const(high_half(word128(number)))),
        ),
        Value::UInt(number) => start.emit_all(
            no_ops()
                .push(Op::I64Const(low_half(number as nat)))
                .push(Op::I64Const(high_half(number as nat))),
        ),
        _ => {
            let placement = place_value(start.generator, value);
            let after = Progress { generator: placement.generator, ..start };
            match placement.place {
                Ok((offset, length)) => after.emit_all(
                    no_ops().push(Op::I32Const(offset as i32)).push(Op::I32Const(length as i32)),
                ),
                Err(failure) => after.fail(failure),
            }
        },
    }
}

/// Whether the literal memory has bytes at an offset.
pub open spec fn bytes_at(generator: GeneratorView, offset: u32, bytes: Seq<u8>) -> bool {
    let data = generator.module.data;
    &&& in_literal_memory(offset, bytes, generator.literal_memory_end)
    &&& exists|i: int|
        0 <= i < data.len() && first_memory_index(generator.module) == Some(
            (#[trigger] data[i]).memory,
        ) && data[i].offset == offset && data[i].bytes == bytes
}

/// The bytes that the characters of a string have in memory.
pub open spec fn character_bytes(characters: CharType) -> Seq<u8> {
    match characters {
        CharType::ASCII(data) => data@,
        CharType::UTF8(data) => scalar_bytes(decode_utf8(joined(data@, data@.len()))),
    }
}

/// Whether the literal memory has the characters of a string at an offset. A text between
/// quotation marks that was put there as an identifier shares its place with the ASCII
/// string that prints so.
pub open spec fn characters_at(
    generator: GeneratorView,
    offset: u32,
    characters: CharType,
) -> bool {
    ||| bytes_at(generator, offset, character_bytes(characters))
    ||| characters matches CharType::ASCII(data) && bytes_at(
        generator,
        offset,
        encode_utf8(ascii_display(data@)),
    )
}

/// Whether the literal memory has, where a text is noted, the ASCII string that prints so.
pub open spec fn holds_string(generator: GeneratorView, text: Seq<char>) -> bool {
    exists|bytes: Seq<u8>|
        ascii_display(bytes) == text && #[trigger] bytes_at(
            generator,
            generator.literals[LiteralKey::Ascii(text)],
            bytes,
        )
}

/// Whether each text that is noted and starts with a quotation mark is there for the ASCII
/// string that prints so, as it is where only identifiers and strings were put into memory.
#[verifier::opaque]
pub open spec fn quoted_are_strings(generator: GeneratorView) -> bool {
    forall|text: Seq<char>| #[trigger]
        generator.literals.contains_key(LiteralKey::Ascii(text)) && is_quoted(text)
            ==> holds_string(generator, text)
}

/// Where no string was put into memory, none is noted.
pub proof fn lemma_nothing_is_quoted(generator: GeneratorView)
    requires
        generator.literals == Map::<LiteralKey, u32>::empty(),
    ensures
        quoted_are_strings(generator),
{
    reveal(quoted_are_strings);
}

/// A string that is noted is in memory.
proof fn lemma_noted_is_stored(generator: GeneratorView, key: LiteralKey) -> (bytes: Seq<u8>)
    requires
        generator.wf(),
        generator.literals.contains_key(key),
    ensures
        are_bytes_of(bytes, key),
        bytes_at(generator, generator.literals[key], bytes),
{
    reveal(literals_hold);
    let data = generator.module.data;
    let memory = first_memory_index(generator.module);
    let offset = generator.literals[key];
    let end = generator.literal_memory_end;
    assert(is_stored(data, memory, end, offset, key));
    let i = choose|i: int|
        0 <= i < data.len() && memory == Some((#[trigger] data[i]).memory) && data[i].offset
            == offset && are_bytes_of(data[i].bytes, key) && in_literal_memory(
            offset,
            data[i].bytes,
            end,
        );
    data[i].bytes
}

/// Bytes that are in memory stay there.
pub proof fn lemma_bytes_stay(
    before: GeneratorView,
    after: GeneratorView,
    offset: u32,
    bytes: Seq<u8>,
)
    requires
        bytes_at(before, offset, bytes),
        after.grew_from(before),
    ensures
        bytes_at(after, offset, bytes),
{
    reveal(GeneratorView::grew_from);
    let data = before.module.data;
    let i = choose|i: int|
        0 <= i < data.len() && first_memory_index(before.module) == Some(
            (#[trigger] data[i]).memory,
        ) && data[i].offset == offset && data[i].bytes == bytes;
    assert(after.module.data[i] == data[i]);
}

/// Putting bytes into memory keeps the state sound, and what was there.
pub proof fn lemma_bytes_are_placed(generator: GeneratorView, bytes: Seq<u8>)
    requires
        generator.wf(),
    ensures
        ({
            let placed = place_bytes(generator, bytes);
            &&& placed.generator.wf()
            &&& placed.generator.grew_from(generator)
            &&& placed.place matches Ok((offset, length)) ==> length == bytes.len() && bytes_at(
                placed.generator,
                offset,
                bytes,
            )
        }),
{
    reveal(GeneratorView::grew_from);
    let placed = place_bytes(generator, bytes);
    if placed.place is Ok {
        let memory = first_memory_index(generator.module)->0;
        let offset = generator.literal_memory_end;
        let segment = DataSegment { memory, offset, bytes };
        let data = generator.module.data;
        lemma_literals_hold_with_more_data(
            data,
            Some(memory),
            offset,
            generator.literals,
            segment,
            placed.generator.literal_memory_end,
        );
        lemma_one_more_fills(
            data,
            generator.standard_segments,
            Some(memory),
            END_OF_STANDARD_DATA as nat,
            offset as nat,
            segment,
        );
        assert(placed.generator.module.data[data.len() as int] == segment);
    }
}

/// Putting a string into memory keeps the state sound, and what was there.
pub proof fn lemma_string_is_placed(
    generator: GeneratorView,
    key: LiteralKey,
    bytes: Seq<u8>,
    length: nat,
)
    requires
        generator.wf(),
        are_bytes_of(bytes, key),
    ensures
        ({
            let placed = place_string(generator, key, bytes, length);
            &&& placed.generator.wf()
            &&& placed.generator.grew_from(generator)
            &&& placed.place matches Ok((offset, _)) ==> {
                &&& placed.generator.literals.contains_key(key)
                &&& placed.generator.literals[key] == offset
                &&& generator.literals.contains_key(key) || bytes_at(
                    placed.generator,
                    offset,
                    bytes,
                )
            }
        }),
{
    reveal(GeneratorView::grew_from);
    lemma_bytes_are_placed(generator, bytes);
    let placed = place_string(generator, key, bytes, length);
    if !generator.literals.contains_key(key) && placed.place is Ok {
        let memory = first_memory_index(generator.module)->0;
        let offset = generator.literal_memory_end;
        lemma_literals_hold_with_one_more(
            generator.module.data,
            memory,
            offset,
            generator.literals,
            DataSegment { memory, offset, bytes },
            key,
        );
        assert(bytes_at(place_bytes(generator, bytes).generator, offset, bytes));
    }
}

/// Whether texts between quotation marks are still those of strings after one more string
/// was put into memory.
proof fn lemma_quoted_stay_strings(
    generator: GeneratorView,
    key: LiteralKey,
    bytes: Seq<u8>,
    length: nat,
)
    requires
        generator.wf(),
        are_bytes_of(bytes, key),
        quoted_are_strings(generator),
        key matches LiteralKey::Ascii(text) ==> !is_quoted(text) || ascii_display(bytes) == text,
    ensures
        quoted_are_strings(place_string(generator, key, bytes, length).generator),
{
    reveal(quoted_are_strings);
    lemma_string_is_placed(generator, key, bytes, length);
    let after = place_string(generator, key, bytes, length).generator;
    assert forall|text: Seq<char>| #[trigger]
        after.literals.contains_key(LiteralKey::Ascii(text)) && is_quoted(
            text,
        ) implies holds_string(after, text) by {
        let other = LiteralKey::Ascii(text);
        if generator.literals.contains_key(other) {
            assert(holds_string(generator, text));
            let held = choose|held: Seq<u8>|
                ascii_display(held) == text && #[trigger] bytes_at(
                    generator,
                    generator.literals[other],
                    held,
                );
            lemma_bytes_stay(generator, after, generator.literals[other], held);
            assert(after.literals[other] == generator.literals[other]);
        } else {
            assert(bytes_at(after, after.literals[other], bytes));
        }
    }
}

/// An identifier is in memory where it is said to be, unless it looks like a string.
pub proof fn lemma_identifier_is_placed(generator: GeneratorView, name: Seq<char>)
    requires
        generator.wf(),
    ensures
        ({
            let placed = place_identifier(generator, name);
            let bytes = encode_utf8(name);
            &&& placed.generator.wf()
            &&& placed.generator.grew_from(generator)
            &&& placed.place matches Ok((offset, length)) ==> length == bytes.len() && (
            !is_quoted(name) ==> bytes_at(placed.generator, offset, bytes))
            &&& quoted_are_strings(generator) && !is_quoted(name) ==> quoted_are_strings(
                placed.generator,
            )
        }),
{
    let key = LiteralKey::Ascii(name);
    let bytes = encode_utf8(name);
    lemma_string_is_placed(generator, key, bytes, bytes.len());
    if generator.literals.contains_key(key) && !is_quoted(name) {
        let stored = lemma_noted_is_stored(generator, key);
        lemma_display_is_quoted(stored);
    }
    if quoted_are_strings(generator) && !is_quoted(name) {
        lemma_quoted_stay_strings(generator, key, bytes, bytes.len());
    }
    if !generator.literals.contains_key(key) {
        lemma_bytes_are_placed(generator, bytes);
    }
}

/// The characters of a string are in memory where they are said to be.
pub proof fn lemma_characters_are_placed(generator: GeneratorView, characters: CharType)
    requires
        generator.wf(),
    ensures
        ({
            let placed = place_characters(generator, characters);
            &&& placed.generator.wf()
            &&& placed.generator.grew_from(generator)
            &&& placed.place matches Ok((offset, _)) ==> characters_at(
                placed.generator,
                offset,
                characters,
            )
            &&& quoted_are_strings(generator) ==> {
                &&& quoted_are_strings(placed.generator)
                &&& placed.place matches Ok((offset, _)) ==> bytes_at(
                    placed.generator,
                    offset,
                    character_bytes(characters),
                )
            }
        }),
{
    let bytes = character_bytes(characters);
    match characters {
        CharType::ASCII(data) => {
            let text = ascii_display(data@);
            let key = LiteralKey::Ascii(text);
            lemma_string_is_placed(generator, key, bytes, data@.len());
            lemma_display_is_quoted(data@);
            if generator.literals.contains_key(key) {
                let stored = lemma_noted_is_stored(generator, key);
                if ascii_display(stored) == text {
                    lemma_display_is_injective(stored, data@);
                }
            }
            if quoted_are_strings(generator) {
                lemma_quoted_stay_strings(generator, key, bytes, data@.len());
                if generator.literals.contains_key(key) {
                    reveal(quoted_are_strings);
                    assert(holds_string(generator, text));
                    let held = choose|held: Seq<u8>|
                        ascii_display(held) == text && #[trigger] bytes_at(
                            generator,
                            generator.literals[key],
                            held,
                        );
                    lemma_display_is_injective(held, data@);
                }
            }
        },
        CharType::UTF8(data) => {
            let encoded = joined(data@, data@.len());
            if valid_utf8(encoded) {
                let key = LiteralKey::Utf8(decode_utf8(encoded));
                lemma_string_is_placed(generator, key, bytes, 4 * data@.len());
                if generator.literals.contains_key(key) {
                    lemma_noted_is_stored(generator, key);
                }
                if quoted_are_strings(generator) {
                    lemma_quoted_stay_strings(generator, key, bytes, 4 * data@.len());
                }
            } else {
                lemma_nothing_grows(generator);
            }
        },
    }
}

/// The bytes that a value has in the literal memory, where it has some.
pub open spec fn stored_bytes(value: Value) -> Option<Seq<u8>> {
    match value {
        Value::Sequence(SequenceData::String(characters)) => Some(character_bytes(characters)),
        _ => literal_bytes(value),
    }
}

/// A value is in memory where it is said to be.
pub proof fn lemma_value_is_placed(generator: GeneratorView, value: Value)
    requires
        generator.wf(),
    ensures
        ({
            let placed = place_value(generator, value);
            &&& placed.generator.wf()
            &&& placed.generator.grew_from(generator)
            &&& placed.place matches Ok((offset, _)) ==> {
                &&& stored_bytes(value) matches Some(bytes)
                &&& bytes_at(placed.generator, offset, bytes) || (value matches Value::Sequence(
                    SequenceData::String(characters),
                ) && characters_at(placed.generator, offset, characters))
            }
            &&& quoted_are_strings(generator) ==> {
                &&& quoted_are_strings(placed.generator)
                &&& placed.place matches Ok((offset, _)) ==> bytes_at(
                    placed.generator,
                    offset,
                    stored_bytes(value)->0,
                )
            }
        }),
{
    lemma_nothing_grows(generator);
    match value {
        Value::Sequence(SequenceData::String(characters)) => {
            lemma_characters_are_placed(generator, characters);
        },
        _ => match literal_bytes(value) {
            Some(bytes) => {
                lemma_bytes_are_placed(generator, bytes);
                if quoted_are_strings(generator) {
                    let after = place_bytes(generator, bytes).generator;
                    lemma_strings_stay(generator, after);
                }
            },
            None => {},
        },
    }
}

/// A state comes from itself.
pub proof fn lemma_nothing_grows(generator: GeneratorView)
    ensures
        generator.grew_from(generator),
{
    reveal(GeneratorView::grew_from);
}

/// Strings stay strings where no more are noted.
proof fn lemma_strings_stay(before: GeneratorView, after: GeneratorView)
    requires
        quoted_are_strings(before),
        after.grew_from(before),
        after.literals == before.literals,
    ensures
        quoted_are_strings(after),
{
    reveal(quoted_are_strings);
    assert forall|text: Seq<char>| #[trigger]
        after.literals.contains_key(LiteralKey::Ascii(text)) && is_quoted(
            text,
        ) implies holds_string(after, text) by {
        let key = LiteralKey::Ascii(text);
        assert(before.literals.contains_key(key));
        assert(holds_string(before, text));
        let held = choose|held: Seq<u8>|
            ascii_display(held) == text && #[trigger] bytes_at(before, before.literals[key], held);
        lemma_bytes_stay(before, after, before.literals[key], held);
    }
}

/// Pushing a value that is written out grows the function.
proof fn lemma_literal_grows(start: Progress, value: Value)
    requires
        start.generator.wf(),
        start.code.wf(),
        start.failure is None,
    ensures
        reached(literal_effect(start, value)).grew_from(reached(start)),
{
    broadcast use lemma_grew_twice;

    reveal(literal_effect);
    lemma_value_is_placed(start.generator, value);
    let after = place_value(start.generator, value);
    lemma_generator_grew(start.generator, after.generator, start.code);
    match value {
        Value::Int(number) => lemma_emitted(
            start.generator,
            start.code,
            no_ops()
                .push(Op::I64Const(low_half(word128(number))))
                .push(Op::I64Const(high_half(word128(number)))),
        ),
        Value::UInt(number) => lemma_emitted(
            start.generator,
            start.code,
            no_ops()
                .push(Op::I64Const(low_half(number as nat)))
                .push(Op::I64Const(high_half(number as nat))),
        ),
        _ => {
            if let Ok((offset, length)) = after.place {
                lemma_emitted(
                    after.generator,
                    start.code,
                    no_ops().push(Op::I32Const(offset as i32)).push(Op::I32Const(length as i32)),
                );
            }
        },
    }
}

/// Whether a result is what a placement says.
pub open spec fn is_place(
    result: Result<(u32, u32), GeneratorError>,
    place: Result<(u32, u32), Failure>,
) -> bool {
    match result {
        Ok(found) => place == Ok::<(u32, u32), Failure>(found),
        Err(error) => place == Err::<(u32, u32), Failure>(error@),
    }
}

/// The text that bytes encode.
///
/// Trusted: `String::from_utf8` returns the text whose UTF-8 encoding the bytes are, and an
/// error where they are not valid UTF-8; the error is dropped here.
#[verifier::external_body]
fn string_from_utf8(bytes: Vec<u8>) -> (text: Option<String>)
    ensures
        match text {
            Some(text) => valid_utf8(bytes@) && text@ == decode_utf8(bytes@),
            None => !valid_utf8(bytes@),
        },
{
    String::from_utf8(bytes).ok()
}

/// The bytes of all elements of a list, one after the other.
fn join_bytes(parts: &Vec<Vec<u8>>) -> (bytes: Vec<u8>)
    ensures
        bytes@ == joined(parts@, parts@.len()),
{
    let mut bytes: Vec<u8> = Vec::new();
    let mut i: usize = 0;
    while i < parts.len()
        invariant
            i <= parts@.len(),
            bytes@ == joined(parts@, i as nat),
        decreases parts@.len() - i,
    {
        let mut part = vstd::slice::slice_to_vec(parts[i].as_slice());
        bytes.append(&mut part);
        i += 1;
    }
    bytes
}

/// Appends a number as four bytes, the most significant first.
fn push_be_bytes(bytes: &mut Vec<u8>, number: u32)
    ensures
        final(bytes)@ == old(bytes)@ + be_bytes(number as nat, 4),
{
    let ghost n = number as nat;
    bytes.push((number / 0x100_0000) as u8);
    bytes.push((number / 0x1_0000 % 256) as u8);
    bytes.push((number / 256 % 256) as u8);
    bytes.push((number % 256) as u8);
    proof {
        reveal_with_fuel(be_bytes, 5);
        assert(n / 256 / 256 == n / 0x1_0000);
        assert(n / 256 / 256 / 256 == n / 0x100_0000);
        assert(be_bytes(n, 4) =~= seq![
            (n / 0x100_0000) as u8,
            (n / 0x1_0000 % 256) as u8,
            (n / 256 % 256) as u8,
            (n % 256) as u8,
        ]);
    }
}

/// Each character of a text as four bytes, the most significant first.
fn to_scalar_bytes(text: &str) -> (bytes: Vec<u8>)
    ensures
        bytes@ == scalar_bytes(text@),
{
    let mut bytes: Vec<u8> = Vec::new();
    assert(text@.take(0) =~= Seq::empty());
    for c in it: text.chars()
        invariant
            it.seq() == text@,
            bytes@ == scalar_bytes(text@.take(it.index())),
    {
        push_be_bytes(&mut bytes, c as u32);
        proof {
            let n = it.index();
            assert(text@.take(n + 1).drop_last() =~= text@.take(n));
            assert(text@.take(n + 1).last() == text@[n]);
        }
    }
    assert(text@.take(text@.len() as int) =~= text@);
    bytes
}

/// The 16 bytes of a number, the least significant first.
fn to_le_bytes(number: u128) -> (bytes: Vec<u8>)
    ensures
        bytes@ == le_bytes(number as nat, 16),
{
    let mut bytes: Vec<u8> = Vec::new();
    let mut rest: u128 = number;
    let mut i: usize = 0;
    while i < 16
        invariant
            i <= 16,
            bytes@ + le_bytes(rest as nat, (16 - i) as nat) == le_bytes(number as nat, 16),
        decreases 16 - i,
    {
        let ghost before = bytes@;
        let ghost whole = rest as nat;
        bytes.push((rest % 256) as u8);
        rest = rest / 256;
        i += 1;
        proof {
            let tail = le_bytes(whole / 256, (16 - i) as nat);
            assert(before + (seq![(whole % 256) as u8] + tail) =~= before.push(
                (whole % 256) as u8,
            ) + tail);
        }
    }
    assert(bytes@ + le_bytes(rest as nat, 0) =~= bytes@);
    bytes
}

/// A number in two's complement on 128 bits.
fn to_word128(value: i128) -> (word: u128)
    ensures
        word == word128(value),
{
    if value >= 0 {
        value as u128
    } else {
        // The complement of the number that is one less in size.
        u128::MAX - (-(value + 1)) as u128
    }
}

/// The number whose two's complement on 64 bits is `word`.
fn to_signed64(word: u64) -> (value: i64)
    ensures
        value == signed64(word as nat),
{
    if word < 0x8000_0000_0000_0000 {
        word as i64
    } else {
        -1 - (0xffff_ffff_ffff_ffff - word) as i64
    }
}

/// The bytes of an account.
fn account_to_bytes(account: &StandardPrincipalData) -> (bytes: Vec<u8>)
    ensures
        bytes@ == account_bytes(*account),
{
    let mut bytes = vec![account.version];
    let mut hash = vstd::slice::slice_to_vec(account.hash.as_slice());
    bytes.append(&mut hash);
    bytes
}

impl WasmGenerator {
    /// Puts bytes at the end of the literal memory.
    fn place_literal(&mut self, bytes: Vec<u8>) -> (result: Result<(u32, u32), GeneratorError>)
        requires
            old(self).wf(),
        ensures
            final(self).wf(),
            final(self)@ == place_bytes(old(self)@, bytes@).generator,
            is_place(result, place_bytes(old(self)@, bytes@).place),
    {
        let memory = self.get_memory()?;
        let offset: u32 = self.literal_memory_end;
        if bytes.len() > (u32::MAX - offset) as usize {
            return Err(internal_error("literal memory is full"));
        }
        let length: u32 = bytes.len() as u32;
        proof {
            lemma_bytes_are_placed(self@, bytes@);
        }
        add_data(&mut self.module, memory, offset, bytes);
        self.literal_memory_end = offset + length;
        Ok((offset, length))
    }

    /// Puts a string into the literal memory, unless it is there already.
    fn place_entry(
        &mut self,
        entry: LiteralMemoryEntry,
        bytes: Vec<u8>,
    ) -> (result: Result<(u32, u32), GeneratorError>)
        requires
            old(self).wf(),
            !old(self)@.literals.contains_key(entry@),
            are_bytes_of(bytes@, entry@),
        ensures
            final(self).wf(),
            final(self)@ == place_string(old(self)@, entry@, bytes@, 0).generator,
            is_place(result, place_string(old(self)@, entry@, bytes@, 0).place),
    {
        proof {
            lemma_string_is_placed(self@, entry@, bytes@, 0);
        }
        let (offset, length) = self.place_literal(bytes)?;

        // Save the offset in the literal memory for this string
        self.literal_memory_offset.insert(entry, offset);
        Ok((offset, length))
    }

    /// Adds a new string literal into the memory, and returns the offset and length. A
    /// string that is there already is not added again.
    pub fn add_clarity_string_literal(&mut self, s: &CharType) -> (result: Result<
        (u32, u32),
        GeneratorError,
    >)
        requires
            old(self).wf(),
        ensures
            final(self).wf(),
            final(self)@ == place_characters(old(self)@, *s).generator,
            is_place(result, place_characters(old(self)@, *s).place),
            result matches Ok((offset, _)) ==> characters_at(final(self)@, offset, *s),
            quoted_are_strings(old(self)@) ==> {
                &&& quoted_are_strings(final(self)@)
                &&& result matches Ok((offset, _)) ==> bytes_at(
                    final(self)@,
                    offset,
                    character_bytes(*s),
                )
            },
    {
        proof {
            lemma_characters_are_placed(self@, *s);
        }
        match s {
            CharType::ASCII(data) => {
                let entry = LiteralMemoryEntry::Ascii(ascii_to_string(data));
                if let Some(offset) = self.literal_memory_offset.get(&entry) {
                    if data.len() > u32::MAX as usize {
                        return Err(internal_error("literal memory is full"));
                    }
                    return Ok((offset, data.len() as u32));
                }
                self.place_entry(entry, vstd::slice::slice_to_vec(data.as_slice()))
            },
            CharType::UTF8(data) => {
                let text = match string_from_utf8(join_bytes(data)) {
                    Some(text) => text,
                    None => return Err(internal_error("Invalid UTF-8 sequence")),
                };
                // Convert the string into 4-byte big-endian unicode scalar values.
                let bytes = to_scalar_bytes(text.as_str());
                let entry = LiteralMemoryEntry::Utf8(text);
                if let Some(offset) = self.literal_memory_offset.get(&entry) {
                    if data.len() > (u32::MAX / 4) as usize {
                        return Err(internal_error("literal memory is full"));
                    }
                    return Ok((offset, data.len() as u32 * 4));
                }
                self.place_entry(entry, bytes)
            },
        }
    }

    /// Adds a new string literal into the memory for an identifier
    pub fn add_string_literal(&mut self, name: &str) -> (result: Result<
        (u32, u32),
        GeneratorError,
    >)
        requires
            old(self).wf(),
        ensures
            final(self).wf(),
            final(self)@ == place_identifier(old(self)@, name@).generator,
            is_place(result, place_identifier(old(self)@, name@).place),
            result is Ok && !is_quoted(name@) ==> bytes_at(
                final(self)@,
                result->Ok_0.0,
                encode_utf8(name@),
            ),
            quoted_are_strings(old(self)@) && !is_quoted(name@) ==> quoted_are_strings(
                final(self)@,
            ),
    {
        proof {
            lemma_identifier_is_placed(self@, name@);
        }
        let bytes = vstd::slice::slice_to_vec(name.as_bytes());
        // If this identifier has already been saved in the literal memory,
        // just return the offset and length.
        let entry = LiteralMemoryEntry::Ascii(name.to_owned());
        if let Some(offset) = self.literal_memory_offset.get(&entry) {
            if bytes.len() > u32::MAX as usize {
                return Err(internal_error("literal memory is full"));
            }
            return Ok((offset, bytes.len() as u32));
        }
        self.place_entry(entry, bytes)
    }

    /// Adds a new literal into the memory, and returns the offset and length.
    pub fn add_literal(&mut self, value: &Value) -> (result: Result<(u32, u32), GeneratorError>)
        requires
            old(self).wf(),
        ensures
            final(self).wf(),
            final(self)@ == place_value(old(self)@, *value).generator,
            is_place(result, place_value(old(self)@, *value).place),
            result matches Ok((offset, _)) ==> {
                &&& stored_bytes(*value) matches Some(bytes)
                &&& bytes_at(final(self)@, offset, bytes) || (value matches Value::Sequence(
                    SequenceData::String(characters),
                ) && characters_at(final(self)@, offset, *characters))
            },
            quoted_are_strings(old(self)@) ==> {
                &&& quoted_are_strings(final(self)@)
                &&& result matches Ok((offset, _)) ==> bytes_at(
                    final(self)@,
                    offset,
                    stored_bytes(*value)->0,
                )
            },
    {
        proof {
            lemma_value_is_placed(self@, *value);
        }
        let data = match value {
            Value::Int(number) => to_le_bytes(to_word128(*number)),
            Value::UInt(number) => to_le_bytes(*number),
            Value::Principal(PrincipalData::Standard(account)) => {
                let mut data = account_to_bytes(account);
                // Append a 0 for the length of the contract name
                data.push(0);
                assert(data@ =~= account_bytes(*account) + seq![0u8]);
                data
            },
            Value::Principal(PrincipalData::Contract(issuer, name)) => {
                let mut data = account_to_bytes(issuer);
                let mut name_bytes = vstd::slice::slice_to_vec(name.as_bytes());
                data.push(name_bytes.len() as u8);
                assert(data@ =~= account_bytes(*issuer) + seq![name_bytes@.len() as u8]);
                data.append(&mut name_bytes);
                data
            },
            Value::Sequence(SequenceData::Buffer(data)) => vstd::slice::slice_to_vec(
                data.as_slice(),
            ),
            Value::Sequence(SequenceData::String(characters)) => {
                return self.add_clarity_string_literal(characters);
            },
            _ => return Err(not_a_literal(value)),
        };
        self.place_literal(data)
    }

    /// Pushes a value that is written out.
    pub(crate) fn visit_literal_value(
        &mut self,
        builder: &mut InstrSeqBuilder,
        value: &Value,
    ) -> (result: Result<(), GeneratorError>)
        requires
            old(self).wf(),
            old(builder).wf(),
        ensures
            final(self).wf(),
            final(builder).wf(),
            final(builder).seq == old(builder).seq,
            final(builder).grew_from(*old(builder)),
            stage(final(self)@, final(builder)@).grew_from(stage(old(self)@, old(builder)@)),
            progress(*final(self), *final(builder), result) == literal_effect(
                Progress::start(old(self)@, old(builder)@),
                *value,
            ),
    {
        proof {
            lemma_literal_grows(Progress::start(self@, builder@), *value);
        }
        reveal(literal_effect);
        proof {
            lemma_emit_all_nothing(builder@);
        }
        match value {
            Value::Int(number) => {
                push_halves(builder, to_word128(*number));
            },
            Value::UInt(number) => {
                push_halves(builder, *number);
            },
            _ => {
                let (offset, length) = self.add_literal(value)?;
                builder.i32_const(offset as i32);
                builder.i32_const(length as i32);
            },
        }
        Ok(())
    }
}

/// Pushes the two halves of a 128-bit word, the low one first.
fn push_halves(builder: &mut InstrSeqBuilder, word: u128)
    requires
        old(builder).wf(),
    ensures
        final(builder).extended(
            *old(builder),
            no_ops()
                .push(Op::I64Const(low_half(word as nat)))
                .push(Op::I64Const(high_half(word as nat))),
        ),
{
    proof {
        lemma_emit_all_nothing(builder@);
    }
    let low: u64 = (word % 0x1_0000_0000_0000_0000) as u64;
    let high: u64 = (word / 0x1_0000_0000_0000_0000) as u64;
    builder.i64_const(to_signed64(low));
    builder.i64_const(to_signed64(high));
}

/// The error for a value that cannot be written out.
fn not_a_literal(value: &Value) -> (error: GeneratorError)
    ensures
        error@ == no_literal(*value),
{
    let form = match value {
        Value::Bool(truth) => if *truth {
            "Bool(true)"
        } else {
            "Bool(false)"
        },
        Value::Tuple(form) => form.text.as_str(),
        Value::Optional(form) => form.text.as_str(),
        Value::Response(form) => form.text.as_str(),
        Value::CallableContract(form) => form.text.as_str(),
        Value::Sequence(SequenceData::List(form)) => form.text.as_str(),
        _ => "",
    };
    proof {
        reveal_strlit("");
        assert(""@ =~= Seq::empty());
    }
    GeneratorError::TypeError("Not a valid literal type: ".to_owned().concat(form))
}

} // verus!

//! What holds of the literal memory, whatever is put into it.
use vstd::prelude::*;
use vstd::utf8::{decode_utf8, encode_utf8};

use crate::analysis::{CharType, SequenceData, Value};
use crate::clarity_vm::is_quoted;
use crate::error::Failure;
use crate::generator::{first_memory_index, GeneratorView, END_OF_STANDARD_DATA};
use crate::growth::lemma_generator_grew_twice;
use crate::literal_table::{fill, lemma_filling_is_apart};
use crate::literals::{
    bytes_at, character_bytes, joined, lemma_bytes_are_placed, lemma_bytes_stay,
    lemma_characters_are_placed, lemma_identifier_is_placed, lemma_nothing_grows,
    lemma_value_is_placed, literal_bytes, place_characters, place_identifier, place_value,
    quoted_are_strings, stored_bytes, Placement,
};
use crate::laws::law_scalar_bytes_len;

verus! {

/// What can be put into the literal memory.
pub enum Literal {
    Value(Value),
    Identifier(Seq<char>),
    Characters(CharType),
}

/// Puts a literal into memory.
pub open spec fn place(generator: GeneratorView, literal: Literal) -> Placement {
    match literal {
        Literal::Value(value) => place_value(generator, value),
        Literal::Identifier(name) => place_identifier(generator, name),
        Literal::Characters(characters) => place_characters(generator, characters),
    }
}

/// The bytes of a literal, where it has some.
pub open spec fn bytes_of(literal: Literal) -> Option<Seq<u8>> {
    match literal {
        Literal::Value(value) => stored_bytes(value),
        Literal::Identifier(name) => Some(encode_utf8(name)),
        Literal::Characters(characters) => Some(character_bytes(characters)),
    }
}

/// Whether each element of a UTF-8 string encodes one character.
pub open spec fn has_one_character_each(characters: CharType) -> bool {
    match characters {
        CharType::ASCII(_) => true,
        CharType::UTF8(data) => decode_utf8(joined(data@, data@.len())).len() == data@.len(),
    }
}

/// Whether a literal is one that a contract can hold: no identifier starts with a quotation
/// mark, and each element of a UTF-8 string encodes one character.
pub open spec fn is_ordinary(literal: Literal) -> bool {
    match literal {
        Literal::Value(Value::Sequence(SequenceData::String(characters))) => {
            has_one_character_each(characters)
        },
        Literal::Value(_) => true,
        Literal::Identifier(name) => !is_quoted(name),
        Literal::Characters(characters) => has_one_character_each(characters),
    }
}

/// The state after literals were put into memory one after the other.
pub open spec fn place_all(generator: GeneratorView, literals: Seq<Literal>) -> GeneratorView
    decreases literals.len(),
{
    if literals.len() == 0 {
        generator
    } else {
        place(place_all(generator, literals.drop_last()), literals.last()).generator
    }
}

/// Where the literal at position `i` was put.
pub open spec fn place_of(generator: GeneratorView, literals: Seq<Literal>, i: int) -> Result<
    (u32, u32),
    Failure,
> {
    place(place_all(generator, literals.take(i)), literals[i]).place
}

/// Whether a literal, and nothing else, is where it is said to be.
pub open spec fn is_in_place(
    generator: GeneratorView,
    literal: Literal,
    offset: u32,
    length: u32,
) -> bool {
    &&& bytes_of(literal) matches Some(bytes)
    &&& bytes.len() == length
    &&& END_OF_STANDARD_DATA <= offset
    &&& offset + length <= generator.literal_memory_end
    &&& bytes_at(generator, offset, bytes)
}

/// The length of the characters of a string.
proof fn lemma_characters_length(generator: GeneratorView, characters: CharType)
    requires
        has_one_character_each(characters),
    ensures
        place_characters(generator, characters).place matches Ok((_, length)) ==> length
            == character_bytes(characters).len(),
{
    match characters {
        CharType::ASCII(data) => {},
        CharType::UTF8(data) => {
            law_scalar_bytes_len(decode_utf8(joined(data@, data@.len())));
        },
    }
}

/// A literal is put in its place, and what was in memory stays there.
pub proof fn law_literal_is_placed(generator: GeneratorView, literal: Literal)
    requires
        generator.wf(),
        quoted_are_strings(generator),
        is_ordinary(literal),
        place(generator, literal).place is Ok,
    ensures
        ({
            let placed = place(generator, literal);
            let (offset, length) = placed.place->Ok_0;
            &&& placed.generator.wf()
            &&& quoted_are_strings(placed.generator)
            &&& placed.generator.grew_from(generator)
            &&& is_in_place(placed.generator, literal, offset, length)
        }),
{
    match literal {
        Literal::Value(value) => {
            lemma_value_is_placed(generator, value);
            match value {
                Value::Sequence(SequenceData::String(characters)) => {
                    lemma_characters_length(generator, characters);
                },
                _ => {
                    lemma_bytes_are_placed(generator, literal_bytes(value)->0);
                },
            }
        },
        Literal::Identifier(name) => {
            lemma_identifier_is_placed(generator, name);
        },
        Literal::Characters(characters) => {
            lemma_characters_are_placed(generator, characters);
            lemma_characters_length(generator, characters);
        },
    }
}

/// Whatever is put into the literal memory, the literals fill it in the order in which they
/// were added, from the end of the data of the standard library to the end of the literal
/// memory, which does not move back; no two of them overlap; and each is still where it was
/// said to be when it was put there, with its own bytes.
pub proof fn law_literals_fill_memory(generator: GeneratorView, literals: Seq<Literal>)
    requires
        generator.wf(),
        quoted_are_strings(generator),
        forall|i: int| 0 <= i < literals.len() ==> is_ordinary(#[trigger] literals[i]),
        forall|i: int|
            0 <= i < literals.len() ==> (#[trigger] place_of(generator, literals, i)) is Ok,
    ensures
        ({
            let after = place_all(generator, literals);
            let segments = after.literal_segments();
            &&& after.wf()
            &&& quoted_are_strings(after)
            &&& after.grew_from(generator)
            &&& generator.literal_memory_end <= after.literal_memory_end
            &&& fill(
                segments,
                first_memory_index(after.module),
                END_OF_STANDARD_DATA as nat,
                after.literal_memory_end as nat,
            )
            &&& forall|i: int, j: int|
                0 <= i < j < segments.len() ==> (#[trigger] segments[i]).offset
                    + segments[i].bytes.len() <= (#[trigger] segments[j]).offset
            &&& forall|i: int|
                0 <= i < literals.len() ==> is_in_place(
                    after,
                    literals[i],
                    (#[trigger] place_of(generator, literals, i))->Ok_0.0,
                    place_of(generator, literals, i)->Ok_0.1,
                )
        }),
    decreases literals.len(),
{
    let after = place_all(generator, literals);
    if literals.len() == 0 {
        lemma_nothing_grows(generator);
    } else {
        let others = literals.drop_last();
        let last = literals.len() - 1;
        let before = place_all(generator, others);
        assert forall|i: int| 0 <= i < others.len() implies (#[trigger] place_of(
            generator,
            others,
            i,
        )) is Ok && place_of(generator, others, i) == place_of(generator, literals, i) by {
            assert(others.take(i) =~= literals.take(i));
            assert(place_of(generator, literals, i) is Ok);
        }
        law_literals_fill_memory(generator, others);
        assert(literals.take(last) =~= others);
        assert(place_of(generator, literals, last) is Ok);
        law_literal_is_placed(before, literals[last]);
        lemma_generator_grew_twice(generator, before, after);
        assert forall|i: int| 0 <= i < literals.len() implies is_in_place(
            after,
            literals[i],
            (#[trigger] place_of(generator, literals, i))->Ok_0.0,
            place_of(generator, literals, i)->Ok_0.1,
        ) by {
            if i < last {
                let (offset, length) = place_of(generator, others, i)->Ok_0;
                assert(is_in_place(before, others[i], offset, length));
                lemma_bytes_stay(before, after, offset, bytes_of(literals[i])->0);
                reveal(GeneratorView::grew_from);
            }
        }
    }
    reveal(GeneratorView::grew_from);
    lemma_filling_is_apart(
        after.literal_segments(),
        first_memory_index(after.module),
        END_OF_STANDARD_DATA as nat,
        after.literal_memory_end as nat,
    );
}

} // verus!

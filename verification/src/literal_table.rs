//! Where the strings that a contract writes out are in memory.
use vstd::hash_map::StringHashMap;
use vstd::prelude::*;
use vstd::utf8::encode_utf8;

use crate::clarity_vm::ascii_display;
use crate::generator::END_OF_STANDARD_DATA;
use crate::ir::DataSegment;

verus! {

/// A string in the literal memory.
#[derive(Debug, Hash, PartialEq, Eq)]
pub enum LiteralMemoryEntry {
    /// An identifier, or the printed form of an ASCII string.
    Ascii(String),
    /// The characters of a UTF-8 string.
    Utf8(String),
}

/// The mathematical value of a `LiteralMemoryEntry`.
pub enum LiteralKey {
    Ascii(Seq<char>),
    Utf8(Seq<char>),
}

impl LiteralMemoryEntry {
    pub open spec fn view(&self) -> LiteralKey {
        match *self {
            LiteralMemoryEntry::Ascii(text) => LiteralKey::Ascii(text@),
            LiteralMemoryEntry::Utf8(text) => LiteralKey::Utf8(text@),
        }
    }
}

/// The strings that are in the literal memory, and their offsets.
pub struct LiteralTable {
    ascii: StringHashMap<u32>,
    utf8: StringHashMap<u32>,
}

impl LiteralTable {
    pub closed spec fn view(&self) -> Map<LiteralKey, u32> {
        Map::new(
            |key: LiteralKey|
                match key {
                    LiteralKey::Ascii(text) => self.ascii@.contains_key(text),
                    LiteralKey::Utf8(text) => self.utf8@.contains_key(text),
                },
            |key: LiteralKey|
                match key {
                    LiteralKey::Ascii(text) => self.ascii@[text],
                    LiteralKey::Utf8(text) => self.utf8@[text],
                },
        )
    }

    /// A table of no strings.
    pub fn new() -> (table: LiteralTable)
        ensures
            table@ == Map::<LiteralKey, u32>::empty(),
    {
        let table = LiteralTable { ascii: StringHashMap::new(), utf8: StringHashMap::new() };
        assert(table@ =~= Map::empty());
        table
    }

    /// The offset of a string.
    pub fn get(&self, entry: &LiteralMemoryEntry) -> (offset: Option<u32>)
        ensures
            offset == if self@.contains_key(entry@) {
                Some(self@[entry@])
            } else {
                None
            },
    {
        let found = match entry {
            LiteralMemoryEntry::Ascii(text) => self.ascii.get(text.as_str()),
            LiteralMemoryEntry::Utf8(text) => self.utf8.get(text.as_str()),
        };
        match found {
            Some(offset) => Some(*offset),
            None => None,
        }
    }

    /// Notes the offset of a string.
    pub fn insert(&mut self, entry: LiteralMemoryEntry, offset: u32)
        ensures
            final(self)@ == old(self)@.insert(entry@, offset),
    {
        match entry {
            LiteralMemoryEntry::Ascii(text) => self.ascii.insert(text, offset),
            LiteralMemoryEntry::Utf8(text) => self.utf8.insert(text, offset),
        }
        assert(self@ =~= old(self)@.insert(entry@, offset));
    }
}

/// The `n` least significant bytes of a number, the most significant of them first.
pub open spec fn be_bytes(value: nat, n: nat) -> Seq<u8>
    decreases n,
{
    if n == 0 {
        Seq::empty()
    } else {
        be_bytes(value / 256, (n - 1) as nat).push((value % 256) as u8)
    }
}

/// The `n` least significant bytes of a number, the least significant first.
pub open spec fn le_bytes(value: nat, n: nat) -> Seq<u8>
    decreases n,
{
    if n == 0 {
        Seq::empty()
    } else {
        seq![(value % 256) as u8] + le_bytes(value / 256, (n - 1) as nat)
    }
}

/// Each character of a text as four bytes, the most significant first.
pub open spec fn scalar_bytes(text: Seq<char>) -> Seq<u8>
    decreases text.len(),
{
    if text.len() == 0 {
        Seq::empty()
    } else {
        scalar_bytes(text.drop_last()) + be_bytes((text.last() as u32) as nat, 4)
    }
}

/// Whether `bytes` are those of the string that `key` stands for.
pub open spec fn are_bytes_of(bytes: Seq<u8>, key: LiteralKey) -> bool {
    match key {
        LiteralKey::Ascii(text) => bytes == encode_utf8(text) || ascii_display(bytes) == text,
        LiteralKey::Utf8(text) => bytes == scalar_bytes(text),
    }
}

/// Whether bytes at an offset lie in the literal memory, which starts after the data of
/// the standard library and ends at `end`.
pub open spec fn in_literal_memory(offset: u32, bytes: Seq<u8>, end: u32) -> bool {
    END_OF_STANDARD_DATA <= offset && offset + bytes.len() <= end
}

/// Whether a memory has the bytes of a string at an offset from the start.
pub open spec fn is_stored(
    data: Seq<DataSegment>,
    memory: Option<nat>,
    end: u32,
    offset: u32,
    key: LiteralKey,
) -> bool {
    exists|i: int|
        0 <= i < data.len() && memory == Some((#[trigger] data[i]).memory) && data[i].offset
            == offset && are_bytes_of(data[i].bytes, key) && in_literal_memory(
            offset,
            data[i].bytes,
            end,
        )
}

/// Whether every string of a table is in the literal memory at the offset that the table
/// gives.
#[verifier::opaque]
pub open spec fn literals_hold(
    data: Seq<DataSegment>,
    memory: Option<nat>,
    end: u32,
    literals: Map<LiteralKey, u32>,
) -> bool {
    forall|key: LiteralKey| #[trigger]
        literals.contains_key(key) ==> is_stored(data, memory, end, literals[key], key)
}

/// The empty table holds.
pub proof fn lemma_no_literals_hold(data: Seq<DataSegment>, memory: Option<nat>, end: u32)
    ensures
        literals_hold(data, memory, end, Map::empty()),
{
    reveal(literals_hold);
}

/// A table still holds when data is added and the literal memory grows.
pub proof fn lemma_literals_hold_with_more_data(
    data: Seq<DataSegment>,
    memory: Option<nat>,
    end: u32,
    literals: Map<LiteralKey, u32>,
    segment: DataSegment,
    new_end: u32,
)
    requires
        literals_hold(data, memory, end, literals),
        end <= new_end,
    ensures
        literals_hold(data.push(segment), memory, new_end, literals),
{
    reveal(literals_hold);
    let more = data.push(segment);
    assert forall|key: LiteralKey| #[trigger] literals.contains_key(key) implies is_stored(
        more,
        memory,
        new_end,
        literals[key],
        key,
    ) by {
        assert(is_stored(data, memory, end, literals[key], key));
        let i = choose|i: int|
            0 <= i < data.len() && memory == Some((#[trigger] data[i]).memory) && data[i].offset
                == literals[key] && are_bytes_of(data[i].bytes, key) && in_literal_memory(
                literals[key],
                data[i].bytes,
                end,
            );
        assert(more[i] == data[i]);
    }
}

/// A table still holds when a string is noted whose bytes were just added at the end of
/// the literal memory.
pub proof fn lemma_literals_hold_with_one_more(
    data: Seq<DataSegment>,
    memory: nat,
    end: u32,
    literals: Map<LiteralKey, u32>,
    segment: DataSegment,
    key: LiteralKey,
)
    requires
        literals_hold(data, Some(memory), end, literals),
        END_OF_STANDARD_DATA <= end,
        segment.memory == memory,
        segment.offset == end,
        are_bytes_of(segment.bytes, key),
        end + segment.bytes.len() <= u32::MAX,
    ensures
        literals_hold(
            data.push(segment),
            Some(memory),
            (end + segment.bytes.len()) as u32,
            literals.insert(key, end),
        ),
{
    let new_end = (end + segment.bytes.len()) as u32;
    lemma_literals_hold_with_more_data(data, Some(memory), end, literals, segment, new_end);
    reveal(literals_hold);
    let more = data.push(segment);
    let noted = literals.insert(key, end);
    assert forall|other: LiteralKey| #[trigger] noted.contains_key(other) implies is_stored(
        more,
        Some(memory),
        new_end,
        noted[other],
        other,
    ) by {
        if other == key {
            assert(more[data.len() as int] == segment);
        } else {
            assert(literals.contains_key(other));
        }
    }
}

/// Whether segments fill a memory from `start` to `end`, each of them starting where the
/// one before it ends.
#[verifier::opaque]
pub open spec fn fill(
    segments: Seq<DataSegment>,
    memory: Option<nat>,
    start: nat,
    end: nat,
) -> bool
    decreases segments.len(),
{
    if segments.len() == 0 {
        start == end
    } else {
        let last = segments.last();
        &&& memory == Some(last.memory)
        &&& last.offset + last.bytes.len() == end
        &&& fill(segments.drop_last(), memory, start, last.offset as nat)
    }
}

/// No segments fill nothing.
pub proof fn lemma_nothing_fills(memory: Option<nat>, start: nat)
    ensures
        fill(Seq::empty(), memory, start, start),
{
    reveal(fill);
}

/// One segment more, where the others end.
pub proof fn lemma_one_more_fills(
    data: Seq<DataSegment>,
    first: nat,
    memory: Option<nat>,
    start: nat,
    end: nat,
    segment: DataSegment,
)
    requires
        first <= data.len(),
        fill(data.skip(first as int), memory, start, end),
        memory == Some(segment.memory),
        segment.offset == end,
    ensures
        fill(data.push(segment).skip(first as int), memory, start, end + segment.bytes.len()),
{
    reveal(fill);
    let more = data.push(segment).skip(first as int);
    assert(more.drop_last() =~= data.skip(first as int));
}

/// Segments that fill a memory one after the other lie between the start and the end, and
/// none of them reaches into one that comes after it.
pub proof fn lemma_filling_is_apart(
    segments: Seq<DataSegment>,
    memory: Option<nat>,
    start: nat,
    end: nat,
)
    requires
        fill(segments, memory, start, end),
    ensures
        start <= end,
        forall|i: int|
            0 <= i < segments.len() ==> {
                &&& memory == Some((#[trigger] segments[i]).memory)
                &&& start <= segments[i].offset
                &&& segments[i].offset + segments[i].bytes.len() <= end
            },
        forall|i: int, j: int|
            0 <= i < j < segments.len() ==> (#[trigger] segments[i]).offset
                + segments[i].bytes.len() <= (#[trigger] segments[j]).offset,
    decreases segments.len(),
{
    reveal(fill);
    if segments.len() > 0 {
        let others = segments.drop_last();
        lemma_filling_is_apart(others, memory, start, segments.last().offset as nat);
        assert forall|i: int| 0 <= i < segments.len() implies {
            &&& memory == Some((#[trigger] segments[i]).memory)
            &&& start <= segments[i].offset
            &&& segments[i].offset + segments[i].bytes.len() <= end
        } by {
            if i < others.len() {
                assert(others[i] == segments[i]);
            }
        }
        assert forall|i: int, j: int| 0 <= i < j < segments.len() implies (
        #[trigger] segments[i]).offset + segments[i].bytes.len() <= (
        #[trigger] segments[j]).offset by {
            assert(others[i] == segments[i]);
            if j < others.len() {
                assert(others[j] == segments[j]);
            }
        }
    }
}

} // verus!

//! What the instructions that move values do when they run.
use vstd::prelude::*;

use crate::ir::{Op, WasmType};
use crate::literal_table::le_bytes;

verus! {

/// A value on the stack: a word of 32 or of 64 bits.
pub enum Word {
    I32(u32),
    I64(u64),
}

/// A WebAssembly machine: its stack, the top last, the locals of the function that runs,
/// its globals and its memory, and the state of the host, which functions can change that
/// are called.
#[verifier::ext_equal]
pub struct Machine {
    pub stack: Seq<Word>,
    pub locals: Map<nat, Word>,
    pub globals: Map<nat, Word>,
    pub memory: Seq<u8>,
    pub host: int,
}

/// The word that holds a signed number of 32 bits.
pub open spec fn word32(value: i32) -> u32 {
    if value >= 0 {
        value as u32
    } else {
        (value + 0x1_0000_0000) as u32
    }
}

/// The word that holds a signed number of 64 bits.
pub open spec fn word64(value: i64) -> u64 {
    if value >= 0 {
        value as u64
    } else {
        (value + 0x1_0000_0000_0000_0000) as u64
    }
}

/// The number that bytes hold, the least significant first.
pub open spec fn le_value(bytes: Seq<u8>) -> nat
    decreases bytes.len(),
{
    if bytes.len() == 0 {
        0
    } else {
        bytes[0] as nat + 256 * le_value(bytes.skip(1))
    }
}

/// The number of bytes that a word of a type takes in memory.
pub open spec fn width(ty: WasmType) -> nat {
    if ty is I64 {
        8
    } else {
        4
    }
}

/// The type of a word.
pub open spec fn type_of_word(word: Word) -> WasmType {
    match word {
        Word::I32(_) => WasmType::I32,
        Word::I64(_) => WasmType::I64,
    }
}

/// The bytes of a word.
pub open spec fn word_bytes(word: Word) -> Seq<u8> {
    match word {
        Word::I32(value) => le_bytes(value as nat, 4),
        Word::I64(value) => le_bytes(value as nat, 8),
    }
}

/// The word of a type that bytes hold.
pub open spec fn word_of(ty: WasmType, bytes: Seq<u8>) -> Word {
    if ty is I64 {
        Word::I64(le_value(bytes) as u64)
    } else {
        Word::I32(le_value(bytes) as u32)
    }
}

/// A memory with other bytes from an address on.
pub open spec fn write_at(memory: Seq<u8>, address: nat, bytes: Seq<u8>) -> Seq<u8> {
    memory.take(address as int) + bytes + memory.skip((address + bytes.len()) as int)
}

impl Machine {
    pub open spec fn top(self) -> Word {
        self.stack.last()
    }

    pub open spec fn push(self, word: Word) -> Machine {
        Machine { stack: self.stack.push(word), ..self }
    }

    pub open spec fn pop(self) -> Machine {
        Machine { stack: self.stack.drop_last(), ..self }
    }

    /// Runs an instruction. There is no next state where it traps, or where it is none of
    /// those that only move values.
    pub open spec fn step(self, op: Op) -> Option<Machine> {
        match op {
            Op::I32Const(value) => Some(self.push(Word::I32(word32(value)))),
            Op::I64Const(value) => Some(self.push(Word::I64(word64(value)))),
            Op::LocalGet(local) => if self.locals.contains_key(local) {
                Some(self.push(self.locals[local]))
            } else {
                None
            },
            Op::LocalSet(local) => if self.stack.len() > 0 {
                Some(Machine { locals: self.locals.insert(local, self.top()), ..self.pop() })
            } else {
                None
            },
            Op::LocalTee(local) => if self.stack.len() > 0 {
                Some(Machine { locals: self.locals.insert(local, self.top()), ..self })
            } else {
                None
            },
            Op::GlobalGet(global) => if self.globals.contains_key(global) {
                Some(self.push(self.globals[global]))
            } else {
                None
            },
            Op::GlobalSet(global) => if self.stack.len() > 0 {
                Some(Machine { globals: self.globals.insert(global, self.top()), ..self.pop() })
            } else {
                None
            },
            Op::I64ExtendUI32 => if self.stack.len() > 0 {
                match self.top() {
                    Word::I32(value) => Some(self.pop().push(Word::I64(value as u64))),
                    _ => None,
                }
            } else {
                None
            },
            Op::Drop => if self.stack.len() > 0 {
                Some(self.pop())
            } else {
                None
            },
            Op::I32Add => if self.stack.len() > 1 {
                match (self.pop().top(), self.top()) {
                    (Word::I32(left), Word::I32(right)) => Some(
                        self.pop().pop().push(Word::I32(((left + right) % 0x1_0000_0000) as u32)),
                    ),
                    _ => None,
                }
            } else {
                None
            },
            Op::Load { ty, offset, .. } => if self.stack.len() > 0 {
                match self.top() {
                    Word::I32(base) => if base + offset + width(ty) <= self.memory.len() {
                        let address = base + offset;
                        Some(
                            self.pop().push(
                                word_of(ty, self.memory.subrange(address, address + width(ty))),
                            ),
                        )
                    } else {
                        None
                    },
                    _ => None,
                }
            } else {
                None
            },
            Op::Store { ty, offset, .. } => if self.stack.len() > 1 {
                match (self.pop().top(), self.top()) {
                    (Word::I32(base), word) => if type_of_word(word) == ty && base + offset
                        + width(ty) <= self.memory.len() {
                        Some(
                            Machine {
                                memory: write_at(
                                    self.memory,
                                    (base + offset) as nat,
                                    word_bytes(word),
                                ),
                                ..self.pop().pop()
                            },
                        )
                    } else {
                        None
                    },
                    _ => None,
                }
            } else {
                None
            },
            Op::MemoryCopy { .. } => if self.stack.len() > 2 {
                match (self.pop().pop().top(), self.pop().top(), self.top()) {
                    (Word::I32(to), Word::I32(from), Word::I32(length)) => if to + length
                        <= self.memory.len() && from + length <= self.memory.len() {
                        Some(
                            Machine {
                                memory: write_at(
                                    self.memory,
                                    to as nat,
                                    self.memory.subrange(from as int, from + length),
                                ),
                                ..self.pop().pop().pop()
                            },
                        )
                    } else {
                        None
                    },
                    _ => None,
                }
            } else {
                None
            },
            _ => None,
        }
    }

    /// Runs instructions one after the other.
    pub open spec fn run(self, ops: Seq<Op>) -> Option<Machine>
        decreases ops.len(),
    {
        if ops.len() == 0 {
            Some(self)
        } else {
            match self.run(ops.drop_last()) {
                Some(machine) => machine.step(ops.last()),
                None => None,
            }
        }
    }
}

/// Running a list of instructions and then one more.
pub broadcast proof fn lemma_run_push(machine: Machine, ops: Seq<Op>, op: Op)
    ensures
        #[trigger] machine.run(ops.push(op)) == match machine.run(ops) {
            Some(next) => next.step(op),
            None => None,
        },
{
    assert(ops.push(op).drop_last() =~= ops);
}

/// Running two lists of instructions.
pub proof fn lemma_run_both(machine: Machine, first: Seq<Op>, second: Seq<Op>)
    ensures
        machine.run(first + second) == match machine.run(first) {
            Some(next) => next.run(second),
            None => None,
        },
    decreases second.len(),
{
    if second.len() == 0 {
        assert(first + second =~= first);
    } else {
        lemma_run_both(machine, first, second.drop_last());
        assert((first + second).drop_last() =~= first + second.drop_last());
        assert((first + second).last() == second.last());
    }
}

/// The number of values that `n` bytes can hold.
pub open spec fn capacity(n: nat) -> nat
    decreases n,
{
    if n == 0 {
        1
    } else {
        256 * capacity((n - 1) as nat)
    }
}

/// The bytes of a number hold the number.
pub proof fn lemma_le_value_of_le_bytes(value: nat, n: nat)
    requires
        value < capacity(n),
    ensures
        le_bytes(value, n).len() == n,
        le_value(le_bytes(value, n)) == value,
    decreases n,
{
    if n > 0 {
        lemma_le_value_of_le_bytes(value / 256, (n - 1) as nat);
        let rest = le_bytes(value / 256, (n - 1) as nat);
        assert(le_bytes(value, n).skip(1) =~= rest);
        assert(le_bytes(value, n)[0] == (value % 256) as u8);
    }
}

/// A word in memory is the word that was put there.
pub proof fn lemma_word_of_word_bytes(word: Word)
    ensures
        word_bytes(word).len() == width(type_of_word(word)),
        word_of(type_of_word(word), word_bytes(word)) == word,
{
    reveal_with_fuel(capacity, 9);
    match word {
        Word::I32(value) => {
            lemma_le_value_of_le_bytes(value as nat, 4);
        },
        Word::I64(value) => {
            lemma_le_value_of_le_bytes(value as nat, 8);
        },
    }
}

} // verus!
